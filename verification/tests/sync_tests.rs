use fly_common::sync::{generate_share_token, generate_user_token, ResourceCollaborator};

#[test]
fn test_generate_share_and_user_tokens() {
    let share_tok = generate_share_token();
    assert_eq!(share_tok.len(), 32);
    assert!(share_tok.chars().all(|c| c.is_ascii_hexdigit()));

    let user_tok = generate_user_token("usr_");
    assert!(user_tok.starts_with("usr_"));
    assert_eq!(user_tok.len(), 36);
}

#[test]
fn test_sync_token_generation() {
    let share_tok = generate_share_token();
    assert_eq!(share_tok.len(), 32);

    let user_tok = generate_user_token("usr_");
    assert!(user_tok.starts_with("usr_"));
    assert_eq!(user_tok.len(), 36);
}

#[test]
fn tokens_are_lower_hex_and_differ() {
    let a = generate_share_token();
    let b = generate_share_token();
    assert_ne!(a, b);
    assert!(a.chars().all(|c| c.is_ascii_digit() || ('a'..='f').contains(&c)));
    let u = generate_user_token("");
    assert_eq!(u.len(), 32);
}

#[test]
fn collaborator_record_holds_its_fields() {
    let c = ResourceCollaborator {
        user_token: "usr_1".to_string(),
        resource_id: 7,
        is_owner: false,
        joined_at: "2024-01-01T00:00:00Z".to_string(),
    };
    assert_eq!(c.clone(), c);
}
