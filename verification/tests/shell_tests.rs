use dirshell::defs::FREE_SLOT;
use dirshell::defs::POOL_CAP;
use dirshell::shell::Shell;

fn val(s: &str) -> Vec<u8> {
    let mut v = s.as_bytes().to_vec();
    assert!(v.len() <= 70);
    while v.len() < 70 {
        v.push(0);
    }
    v
}

fn cmd(s: &str) -> Vec<u8> {
    let mut v = s.as_bytes().to_vec();
    assert!(v.len() <= 10);
    while v.len() < 10 {
        v.push(0);
    }
    v
}

fn run(sh: &mut Shell, c: &str, v: &str) -> String {
    let (text, cleared) = sh.execute_command(&cmd(c), &val(v));
    assert!(!cleared);
    String::from_utf8(text).unwrap()
}

fn occupied_count(sh: &Shell) -> usize {
    (0..POOL_CAP).filter(|&i| sh.directories[i].index == i).count()
}

#[test]
fn new_shell_starts_at_root() {
    let sh = Shell::new();
    assert_eq!(sh.cur_dir, 0);
    assert_eq!(sh.buf_len, 0);
    assert_eq!(occupied_count(&sh), 1);
    assert_eq!(&sh.directories[0].name[..4], b"root");
}

#[test]
fn cur_dir_prints_root() {
    let sh = Shell::new();
    let out = sh.cur_dir();
    assert_eq!(String::from_utf8(out).unwrap(), "\n/root");
}

#[test]
fn make_dir_reports_the_new_name() {
    let mut sh = Shell::new();
    let out = run(&mut sh, "make_dir", "docs");
    assert_eq!(out, "\n[Ok] Created new dir \"docs\"");
    assert_eq!(occupied_count(&sh), 2);
}

#[test]
fn create_then_change_lands_on_the_new_name() {
    let mut sh = Shell::new();
    run(&mut sh, "make_dir", "docs");
    let out = run(&mut sh, "change_dir", "docs");
    assert_eq!(out, "\n\n[Ok] Changed current dir to \"docs\"");
    let mut expect = b"docs".to_vec();
    while expect.len() < 10 {
        expect.push(0);
    }
    assert_eq!(sh.directories[sh.cur_dir].name, expect);
}

#[test]
fn descend_then_dot_returns_to_root() {
    let mut sh = Shell::new();
    run(&mut sh, "make_dir", "docs");
    run(&mut sh, "change_dir", "docs");
    assert_ne!(sh.cur_dir, 0);
    let out = run(&mut sh, "change_dir", ".");
    assert_eq!(out, "");
    assert_eq!(sh.cur_dir, 0);
}

#[test]
fn make_dir_rejects_a_long_name() {
    let mut sh = Shell::new();
    let out = run(&mut sh, "make_dir", "elevenchars");
    assert_eq!(out, "\n[Error] Invalid directory name. Max size is 10 characters");
    assert_eq!(occupied_count(&sh), 1);
}

#[test]
fn change_dir_rejects_a_long_name() {
    let mut sh = Shell::new();
    let out = run(&mut sh, "change_dir", "elevenchars");
    assert_eq!(out, "[Error] Invalid directory name. Max size is 10 characters");
    assert_eq!(sh.cur_dir, 0);
}

#[test]
fn change_dir_reports_a_missing_child() {
    let mut sh = Shell::new();
    let out = run(&mut sh, "change_dir", "xyz");
    assert_eq!(out, "\nFolder \"xyz\" doesn't exist!");
    assert_eq!(sh.cur_dir, 0);
}

#[test]
fn remove_nonempty_fails_and_leaves_the_tree() {
    let mut sh = Shell::new();
    run(&mut sh, "make_dir", "docs");
    run(&mut sh, "change_dir", "docs");
    run(&mut sh, "make_dir", "notes");
    run(&mut sh, "change_dir", ".");
    let before = occupied_count(&sh);
    let out = run(&mut sh, "remove_dir", "docs");
    assert_eq!(out, "\n[Error] Count of children must be 0");
    assert_eq!(occupied_count(&sh), before);
    // the refused removal changed nothing: descending still works
    let out2 = run(&mut sh, "change_dir", "docs");
    assert_eq!(out2, "\n\n[Ok] Changed current dir to \"docs\"");
}

#[test]
fn remove_dir_frees_the_slot() {
    let mut sh = Shell::new();
    run(&mut sh, "make_dir", "docs");
    let out = run(&mut sh, "remove_dir", "docs");
    assert_eq!(out, "\n[Ok] Directory \"docs\" removed");
    assert_eq!(occupied_count(&sh), 1);
    assert_eq!(sh.directories[0].child_count, 0);
}

#[test]
fn remove_dir_without_a_match_is_silent() {
    let mut sh = Shell::new();
    let before = occupied_count(&sh);
    let (text, cleared) = sh.execute_command(&cmd("remove_dir"), &val("ghost"));
    assert!(!cleared);
    assert_eq!(text, Vec::<u8>::new());
    assert_eq!(occupied_count(&sh), before);
}

#[test]
fn twenty_first_child_is_refused() {
    let mut sh = Shell::new();
    for i in 0..20 {
        let name = format!("d{}", i);
        let out = run(&mut sh, "make_dir", &name);
        assert!(out.starts_with("\n[Ok]"), "{}", out);
    }
    let before = occupied_count(&sh);
    assert_eq!(before, 21);
    let out = run(&mut sh, "make_dir", "onemore");
    assert_eq!(out, "\n[Error] Can`t be created in this directory!");
    assert_eq!(occupied_count(&sh), before);
}

#[test]
fn exhausted_pool_is_refused() {
    let mut sh = Shell::new();
    for _level in 0..4 {
        for i in 0..20 {
            let name = format!("d{}", i);
            let out = run(&mut sh, "make_dir", &name);
            assert!(out.starts_with("\n[Ok]"), "{}", out);
        }
        run(&mut sh, "change_dir", "d0");
    }
    for i in 0..19 {
        let name = format!("e{}", i);
        let out = run(&mut sh, "make_dir", &name);
        assert!(out.starts_with("\n[Ok]"), "{}", out);
    }
    assert_eq!(occupied_count(&sh), 100);
    let out = run(&mut sh, "make_dir", "overflow");
    assert_eq!(out, "\n[Error] Can`t be created in this directory!");
    assert_eq!(occupied_count(&sh), 100);
}

#[test]
fn tree_of_depth_three_prints_three_indented_lines() {
    let mut sh = Shell::new();
    run(&mut sh, "make_dir", "A");
    run(&mut sh, "change_dir", "A");
    run(&mut sh, "make_dir", "B");
    run(&mut sh, "change_dir", "B");
    run(&mut sh, "make_dir", "C");
    run(&mut sh, "change_dir", ".");
    run(&mut sh, "change_dir", ".");
    assert_eq!(sh.cur_dir, 0);
    let out = run(&mut sh, "dir_tree", "");
    assert_eq!(out, "\n/root\n    /A\n        /B\n            /C\n");
}

#[test]
fn tree_lists_children_in_creation_order() {
    let mut sh = Shell::new();
    run(&mut sh, "make_dir", "docs");
    run(&mut sh, "change_dir", "docs");
    run(&mut sh, "make_dir", "notes");
    run(&mut sh, "change_dir", ".");
    run(&mut sh, "make_dir", "music");
    let out = run(&mut sh, "dir_tree", "");
    assert_eq!(out, "\n/root\n    /docs\n        /notes\n    /music\n");
}

#[test]
fn clear_asks_for_a_cleared_screen() {
    let mut sh = Shell::new();
    let (text, cleared) = sh.execute_command(&cmd("clear"), &val(""));
    assert!(cleared);
    assert_eq!(text, Vec::<u8>::new());
}

#[test]
fn unknown_command_is_echoed_back() {
    let mut sh = Shell::new();
    let (text, cleared) = sh.execute_command(&cmd("frobnicate"), &val(""));
    assert!(!cleared);
    assert_eq!(
        String::from_utf8(text).unwrap(),
        "\n\n[Error] Command \"frobnicate\" is not supported!"
    );
}

#[test]
fn freed_slot_is_reused_without_stale_references() {
    let mut sh = Shell::new();
    run(&mut sh, "make_dir", "first");
    run(&mut sh, "make_dir", "second");
    let freed = sh.directories[0].child_indexes[0];
    run(&mut sh, "remove_dir", "first");
    // no child entry anywhere still names the freed slot
    for i in 0..POOL_CAP {
        for j in 0..20 {
            assert_ne!(sh.directories[i].child_indexes[j], freed);
        }
    }
    run(&mut sh, "make_dir", "third");
    // the very next allocation reuses the same slot index
    assert_eq!(sh.directories[freed].index, freed);
    assert_eq!(&sh.directories[freed].name[..5], b"third");
    let out = run(&mut sh, "change_dir", "third");
    assert_eq!(out, "\n\n[Ok] Changed current dir to \"third\"");
    assert_eq!(sh.cur_dir, freed);
}

#[test]
fn scenario_docs_and_notes() {
    let mut sh = Shell::new();
    assert_eq!(run(&mut sh, "make_dir", "docs"), "\n[Ok] Created new dir \"docs\"");
    assert_eq!(
        run(&mut sh, "change_dir", "docs"),
        "\n\n[Ok] Changed current dir to \"docs\""
    );
    assert_eq!(run(&mut sh, "make_dir", "notes"), "\n[Ok] Created new dir \"notes\"");
    assert_eq!(run(&mut sh, "change_dir", "."), "");
    assert_eq!(sh.cur_dir, 0);
    assert_eq!(run(&mut sh, "dir_tree", ""), "\n/root\n    /docs\n        /notes\n");
}

fn type_line(sh: &mut Shell, line: &str) -> String {
    let mut last = String::new();
    for b in line.bytes() {
        let out = sh.on_key_pressed(b);
        last = String::from_utf8(out.text).unwrap();
    }
    last
}

#[test]
fn keystrokes_echo_and_run_the_line() {
    let mut sh = Shell::new();
    let out = sh.on_key_pressed(b'c');
    assert!(!out.erase && !out.clear);
    assert_eq!(out.text, b"c".to_vec());
    let last = type_line(&mut sh, "ur_dir\n");
    assert_eq!(last, "\n/root\n $ ");
    assert_eq!(sh.buf_len, 0);
}

#[test]
fn backspace_erases_one_byte() {
    let mut sh = Shell::new();
    type_line(&mut sh, "curX");
    assert_eq!(sh.buf_len, 4);
    let out = sh.on_key_pressed(8);
    assert!(out.erase && !out.clear);
    assert_eq!(out.text, Vec::<u8>::new());
    assert_eq!(sh.buf_len, 3);
    assert_eq!(sh.buf[3], 0);
    let last = type_line(&mut sh, "_dir\n");
    assert_eq!(last, "\n/root\n $ ");
}

#[test]
fn backspace_on_an_empty_line_stays_empty() {
    let mut sh = Shell::new();
    let out = sh.on_key_pressed(8);
    assert!(out.erase);
    assert_eq!(sh.buf_len, 0);
}

#[test]
fn line_driven_make_and_tree() {
    let mut sh = Shell::new();
    assert_eq!(
        type_line(&mut sh, "make_dir docs\n"),
        "\n[Ok] Created new dir \"docs\"\n $ "
    );
    assert_eq!(type_line(&mut sh, "dir_tree\n"), "\n/root\n    /docs\n\n $ ");
}

#[test]
fn free_sentinel_is_one_past_the_pool() {
    assert_eq!(FREE_SLOT, POOL_CAP);
    let sh = Shell::new();
    for j in 0..20 {
        assert_eq!(sh.directories[0].child_indexes[j], FREE_SLOT);
    }
}
