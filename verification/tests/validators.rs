use gallery_core::validate::{
    validate_color, validate_comment, validate_create_group, validate_group_description,
    validate_group_name, CreateGroupInput,
};

#[test]
fn group_name_is_trimmed() {
    // Fails if whitespace detection were a stub: the padding must go.
    assert_eq!(validate_group_name("  My Album  "), Ok("My Album".to_string()));
}

#[test]
fn group_name_trims_unicode_whitespace() {
    assert_eq!(validate_group_name("\u{3000}cats\u{3000}"), Ok("cats".to_string()));
}

#[test]
fn group_name_rejects_empty_and_blank() {
    assert_eq!(validate_group_name(""), Err("Group name cannot be empty".to_string()));
    assert_eq!(validate_group_name("   \t "), Err("Group name cannot be empty".to_string()));
}

#[test]
fn group_name_rejects_over_100_chars() {
    let long = "x".repeat(101);
    assert_eq!(
        validate_group_name(&long),
        Err("Group name is too long (max 100 characters)".to_string())
    );
    let just_right = "x".repeat(100);
    assert_eq!(validate_group_name(&just_right), Ok(just_right.clone()));
}

#[test]
fn description_none_and_blank_mean_no_description() {
    assert_eq!(validate_group_description(&None), Ok(None));
    assert_eq!(validate_group_description(&Some("   ".to_string())), Ok(None));
}

#[test]
fn description_is_trimmed_and_bounded() {
    assert_eq!(
        validate_group_description(&Some(" hello ".to_string())),
        Ok(Some("hello".to_string()))
    );
    let long = "y".repeat(501);
    assert_eq!(
        validate_group_description(&Some(long)),
        Err("Description is too long (max 500 characters)".to_string())
    );
}

#[test]
fn color_accepts_short_and_long_hex() {
    assert_eq!(validate_color("#fff"), Ok("#fff".to_string()));
    assert_eq!(validate_color(" #A1b2C3 "), Ok("#A1b2C3".to_string()));
}

#[test]
fn color_rejects_missing_hash() {
    assert_eq!(
        validate_color("fff"),
        Err("Invalid color format: must start with '#'".to_string())
    );
    assert_eq!(
        validate_color(""),
        Err("Invalid color format: must start with '#'".to_string())
    );
}

#[test]
fn color_rejects_wrong_length() {
    assert_eq!(
        validate_color("#ffff"),
        Err("Invalid color format: must be #RGB or #RRGGBB".to_string())
    );
    assert_eq!(
        validate_color("#"),
        Err("Invalid color format: must be #RGB or #RRGGBB".to_string())
    );
}

#[test]
fn color_rejects_non_hex_characters() {
    assert_eq!(
        validate_color("#ggg"),
        Err("Invalid color format: must contain only hexadecimal characters".to_string())
    );
    assert_eq!(
        validate_color("#12345z"),
        Err("Invalid color format: must contain only hexadecimal characters".to_string())
    );
}

#[test]
fn comment_rules() {
    assert_eq!(validate_comment(" nice "), Ok("nice".to_string()));
    assert_eq!(validate_comment("  "), Err("Comment cannot be empty".to_string()));
    let long = "z".repeat(501);
    assert_eq!(
        validate_comment(&long),
        Err("Comment is too long (max 500 characters)".to_string())
    );
}

#[test]
fn create_group_uses_default_color() {
    let input = CreateGroupInput {
        name: " Holiday ".to_string(),
        description: None,
        color: None,
        representative_image_id: None,
    };
    let (name, description, color) = validate_create_group(&input).unwrap();
    assert_eq!(name, "Holiday");
    assert_eq!(description, None);
    assert_eq!(color, "#3b82f6");
}

#[test]
fn create_group_reports_first_failure() {
    let input = CreateGroupInput {
        name: " ".to_string(),
        description: Some("d".repeat(501)),
        color: Some("nope".to_string()),
        representative_image_id: None,
    };
    assert_eq!(validate_create_group(&input), Err("Group name cannot be empty".to_string()));

    let input2 = CreateGroupInput {
        name: "ok".to_string(),
        description: Some("d".repeat(501)),
        color: Some("nope".to_string()),
        representative_image_id: None,
    };
    assert_eq!(
        validate_create_group(&input2),
        Err("Description is too long (max 500 characters)".to_string())
    );

    let input3 = CreateGroupInput {
        name: "ok".to_string(),
        description: Some("fine".to_string()),
        color: Some("nope".to_string()),
        representative_image_id: None,
    };
    assert_eq!(
        validate_create_group(&input3),
        Err("Invalid color format: must start with '#'".to_string())
    );
}

#[test]
fn create_group_accepts_all_fields() {
    let input = CreateGroupInput {
        name: "Trips".to_string(),
        description: Some("  around the world  ".to_string()),
        color: Some("#00ff00".to_string()),
        representative_image_id: Some(7),
    };
    let (name, description, color) = validate_create_group(&input).unwrap();
    assert_eq!(name, "Trips");
    assert_eq!(description, Some("around the world".to_string()));
    assert_eq!(color, "#00ff00");
}
