use cohere::env::{parse_env_lines, Env, EnvState};

fn bv(s: &str) -> Vec<u8> {
    s.as_bytes().to_vec()
}

#[test]
fn known_environment_names_are_recognized() {
    let cases = [
        ("local", Env::Local),
        ("dev", Env::Dev),
        ("sit", Env::Sit),
        ("alpha", Env::Alpha),
        ("beta", Env::Beta),
        ("uat", Env::Uat),
        ("staging", Env::Staging),
        ("prod", Env::Prod),
    ];
    for (name, env) in cases {
        let state = EnvState::from_name(name.as_bytes()).expect(name);
        assert_eq!(state.value(), env);
        assert_eq!(env.name(), bv(name));
    }
}

#[test]
fn unknown_environment_names_are_rejected() {
    assert!(EnvState::from_name(b"production").is_none());
    assert!(EnvState::from_name(b"Prod").is_none());
    assert!(EnvState::from_name(b"").is_none());
}

#[test]
fn env_file_lines_parse_like_the_loader_reads_them() {
    let content = "# comment\n\nFOO=bar\n  KEY = value with spaces  \r\nNOEQ\nA=b=c\n";
    let parsed = parse_env_lines(content.as_bytes());
    assert_eq!(
        parsed,
        vec![
            (bv("FOO"), bv("bar")),
            (bv("KEY"), bv("value with spaces")),
            (bv("A"), bv("b=c")),
        ]
    );
}

#[test]
fn blank_and_comment_lines_are_skipped() {
    let parsed = parse_env_lines(b"   \n# A=1\n\t\nB=2");
    assert_eq!(parsed, vec![(bv("B"), bv("2"))]);
}
