use combosutils::{
    build_results_path, encode_lines, extract, extract_phone, frame, join, normalize_phone_combo,
    process_into, read_lines, remove_domain, transform_lines, Batch, CoreError, DomainRemover,
    LinesProcessor, Merger, PartExtractor, PhonesExtractor, Shuffler, Task,
};

fn corpus(items: &[&str]) -> Vec<String> {
    items.iter().map(|s| s.to_string()).collect()
}

#[test]
fn remove_domain_strips_host() {
    assert_eq!(remove_domain("user@mail.ru:secret"), Some("user:secret".to_string()));
    assert_eq!(remove_domain("user;pa:ss"), Some("user:pa:ss".to_string()));
    assert_eq!(remove_domain("a@b@c:p"), Some("a:p".to_string()));
}

#[test]
fn remove_domain_rejects_malformed() {
    assert_eq!(remove_domain("no-separator"), None);
    assert_eq!(remove_domain(":secret"), None);
    assert_eq!(remove_domain("user:"), None);
    assert_eq!(remove_domain(""), None);
}

#[test]
fn extract_logins_and_passwords() {
    assert_eq!(extract("mail@x.com:pw", Task::ExtractLogins), Some("mail@x.com".to_string()));
    assert_eq!(extract("mail@x.com;pw", Task::ExtractPasswords), Some("pw".to_string()));
    assert_eq!(extract("mail@x.com", Task::ExtractPasswords), None);
}

#[test]
fn phones_are_normalized() {
    assert_eq!(extract_phone("+7 (912) 345-67-89"), Some("79123456789".to_string()));
    assert_eq!(extract_phone("9123456789"), Some("79123456789".to_string()));
    assert_eq!(extract_phone("89123456789"), Some("79123456789".to_string()));
    assert_eq!(extract_phone("0501234567"), Some("380501234567".to_string()));
    assert_eq!(extract_phone("375291234567"), Some("375291234567".to_string()));
    assert_eq!(extract_phone("37369123456"), Some("37369123456".to_string()));
    assert_eq!(extract_phone("+4915112345678"), Some("4915112345678".to_string()));
}

#[test]
fn phones_are_rejected() {
    assert_eq!(extract_phone("user@9123456789"), None);
    assert_eq!(extract_phone("1234567"), None);
    assert_eq!(extract_phone("1234567890123456"), None);
    assert_eq!(extract_phone("4915112345678"), None);
    assert_eq!(extract_phone(""), None);
}

#[test]
fn phone_combo_keeps_password() {
    assert_eq!(
        normalize_phone_combo("8 912 345-67-89:secret"),
        Some("79123456789:secret".to_string())
    );
    assert_eq!(normalize_phone_combo("mail@x.com:secret"), None);
    assert_eq!(PhonesExtractor.process_line("9123456789;p"), Some("79123456789:p".to_string()));
}

#[test]
fn processors_follow_their_transform() {
    assert_eq!(DomainRemover.process_line("a@b:c"), Some("a:c".to_string()));
    assert_eq!(Merger.process_line("anything"), Some("anything".to_string()));
    let logins = PartExtractor::new(Task::ExtractLogins).unwrap();
    assert_eq!(logins.process_line("l:p"), Some("l".to_string()));
    assert!(PartExtractor::new(Task::Merge).is_none());
    let out = transform_lines(&DomainRemover, &corpus(&["a@b:1", "bad", "c:2"]));
    assert_eq!(out, corpus(&["a:1", "c:2"]));
}

#[test]
fn batches_fill_and_flush() {
    let mut b = Batch::new(2);
    assert_eq!(process_into(&DomainRemover, &mut b, "a@x:1"), None);
    assert_eq!(process_into(&DomainRemover, &mut b, "junk"), None);
    assert_eq!(process_into(&DomainRemover, &mut b, "b@y:2"), Some(corpus(&["a:1", "b:2"])));
    assert_eq!(b.append("c".to_string()), None);
    assert_eq!(b.flush(), corpus(&["c"]));
    assert!(b.flush().is_empty());
}

#[test]
fn read_lines_splits_on_terminators() {
    assert_eq!(read_lines("a\r\nb\nc"), corpus(&["a", "b", "c"]));
    assert_eq!(read_lines("a\n\nb\n"), corpus(&["a", "", "b"]));
    assert!(read_lines("").is_empty());
    assert_eq!(read_lines("x\r"), corpus(&["x\r"]));
}

#[test]
fn join_and_frame() {
    assert_eq!(join(&corpus(&["a", "b", "c"]), ", "), "a, b, c");
    assert_eq!(join(&Vec::new(), ","), "");
    assert_eq!(frame(&corpus(&["a", "b"])), "a\r\nb\r\n");
}

#[test]
fn encoding_uses_legacy_code_page() {
    assert_eq!(encode_lines(&corpus(&["ab"])), Some(b"ab\r\n".to_vec()));
    assert_eq!(encode_lines(&corpus(&["caf\u{e9}"])), Some(vec![b'c', b'a', b'f', 0xE9, b'\r', b'\n']));
    assert_eq!(encode_lines(&corpus(&["\u{20ac}"])), Some(vec![0x80, b'\r', b'\n']));
}

#[test]
fn results_paths() {
    assert_eq!(build_results_path("combo.txt", "out", "_merged"), "out/combo_merged.txt");
    assert_eq!(build_results_path("a.b.txt", "", "_x"), "a.b_x.txt");
    assert_eq!(build_results_path(".hidden", "d", "_x"), "d/.hidden_x.");
    assert_eq!(build_results_path("plain", "d", "_x"), "d/plain_x.");
}

#[test]
fn suffixes_and_messages() {
    assert_eq!(Task::RemoveDomains.to_suffix(), "_no_domains");
    assert_eq!(Task::SplitByParts.to_suffix(), "_splitted_{num}");
    assert_eq!(Task::Compare.to_suffix(), "_uniq_{file}");
    assert_eq!(CoreError::DestinationExists.message(), "destination already exists");
}

#[test]
fn shuffle_is_a_permutation() {
    let input = corpus(&["1", "2", "2", "3"]);
    let mut out = Shuffler::shuffle(input.clone());
    out.sort();
    assert_eq!(out, input);
}
