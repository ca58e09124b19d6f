use pult_desktop::commands::{
    commands_unreadable_message, contains_chars, doctor_failure, listing_failure, trust_outcome,
    version_outcome,
};

#[test]
fn listing_failure_recognizes_a_missing_manifest() {
    assert_eq!(
        listing_failure(b"error: no pult.yaml found in /x or any parent\n"),
        "No pult.yaml here — point me at a repository that has one"
    );
    assert_eq!(
        listing_failure(b"  boom \n"),
        "Couldn't read this repository's commands: boom"
    );
    assert_eq!(
        commands_unreadable_message("bad json"),
        "Couldn't read this repository's commands: bad json"
    );
}

#[test]
fn trust_doctor_and_version_outcomes() {
    assert_eq!(trust_outcome(true, b"ignored"), Ok(()));
    assert_eq!(
        trust_outcome(false, b" denied\n"),
        Err("Couldn't trust this repository: denied".to_string())
    );
    assert_eq!(doctor_failure(b"oops"), "Couldn't check readiness: oops");
    assert_eq!(version_outcome(true, b"pult 0.4.0\n", b""), Ok("pult 0.4.0".to_string()));
    assert_eq!(
        version_outcome(false, b"", b"nope"),
        Err("Couldn't get pult's version: nope".to_string())
    );
}

#[test]
fn contains_chars_finds_substrings() {
    let s: Vec<char> = "abcabd".chars().collect();
    let p: Vec<char> = "abd".chars().collect();
    let q: Vec<char> = "abe".chars().collect();
    assert!(contains_chars(&s, &p));
    assert!(!contains_chars(&s, &q));
    assert!(contains_chars(&s, &[]));
    assert!(!contains_chars(&p, &s));
}
