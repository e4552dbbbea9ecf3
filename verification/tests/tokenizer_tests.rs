use dirshell::tokenizer::check_command;
use dirshell::tokenizer::get_command;
use dirshell::tokenizer::get_value;

fn line(s: &str) -> Vec<u8> {
    let mut v = s.as_bytes().to_vec();
    assert!(v.len() <= 80);
    while v.len() < 80 {
        v.push(0);
    }
    v
}

fn pad10(s: &str) -> Vec<u8> {
    let mut v = s.as_bytes().to_vec();
    assert!(v.len() <= 10);
    while v.len() < 10 {
        v.push(0);
    }
    v
}

#[test]
fn command_stops_at_space() {
    let arr = line("make_dir docs");
    let cmd = get_command(&arr, 13);
    assert_eq!(cmd, pad10("make_dir"));
}

#[test]
fn command_caps_at_ten_bytes() {
    let arr = line("change_dir docs");
    let cmd = get_command(&arr, 15);
    assert_eq!(cmd, pad10("change_dir"));
}

#[test]
fn command_reads_only_the_current_line() {
    // Stale bytes beyond the line's length are not part of the token.
    let mut arr = line("ab");
    for (i, b) in "ke_dir junk".bytes().enumerate() {
        arr[2 + i] = b;
    }
    let cmd = get_command(&arr, 2);
    assert_eq!(cmd, pad10("ab"));
}

#[test]
fn value_is_everything_after_the_first_space() {
    let arr = line("make_dir docs");
    let v = get_value(&arr, 13);
    let mut expect = b"docs".to_vec();
    while expect.len() < 70 {
        expect.push(0);
    }
    assert_eq!(v, expect);
}

#[test]
fn value_keeps_spaces_after_the_first() {
    let arr = line("make_dir a b c");
    let v = get_value(&arr, 14);
    let mut expect = b"a b c".to_vec();
    while expect.len() < 70 {
        expect.push(0);
    }
    assert_eq!(v, expect);
}

#[test]
fn value_empty_without_space() {
    let arr = line("dir_tree");
    let v = get_value(&arr, 8);
    assert_eq!(v, vec![0u8; 70]);
}

#[test]
fn check_command_exact_match() {
    let pat = b"cur_dir".to_vec();
    assert!(check_command(&pat, &pad10("cur_dir")));
}

#[test]
fn check_command_is_prefix_matching() {
    // The dispatcher's documented policy: trailing token bytes beyond the
    // literal are not checked.
    let pat = b"cur_dir".to_vec();
    assert!(check_command(&pat, &pad10("cur_dirXXX")));
}

#[test]
fn check_command_rejects_mismatch() {
    let pat = b"cur_dir".to_vec();
    assert!(!check_command(&pat, &pad10("cur_dif")));
}
