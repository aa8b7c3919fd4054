use situ::container::{
    collect_output, env_entry, exec_request, parse_number, parse_pid, pid_request, trim_end,
    white_space, Container, LogChunk,
};
use situ::plugin::MirivisPlugin;
use situ::server::{list_request, read_request, save_request, vis_request};
use situ::shell::{find_word_end, push_onto, Shell};
use situ::type_ids::TypeDefIds;
use std::path::PathBuf;

fn text(s: &str) -> String {
    s.to_string()
}

fn pushed(base: &str, part: &str) -> String {
    let mut path = PathBuf::from(base);
    path.push(part);
    path.to_str().unwrap().to_string()
}

#[test]
fn a_shell_starts_at_the_root() {
    assert_eq!(Shell::new().cwd(), "/");
}

#[test]
fn a_command_is_typed_with_a_line_end() {
    let mut shell = Shell::new();
    assert_eq!(shell.run("echo hey"), "echo hey\n");
    assert_eq!(shell.run(""), "\n");
    assert_eq!(shell.run("ls  -l "), "ls  -l \n");
    assert_eq!(shell.cwd(), "/");
}

#[test]
fn cargo_keeps_its_colours() {
    let mut shell = Shell::new();
    assert_eq!(shell.run("cargo build"), "cargo build --color=always\n");
    assert_eq!(shell.run("cargo"), "cargo --color=always\n");
    assert_eq!(shell.run("cargo-fmt"), "cargo-fmt\n");
    assert_eq!(shell.run(" cargo build"), " cargo build\n");
}

#[test]
fn cd_moves_the_working_directory() {
    let mut shell = Shell::new();
    assert_eq!(shell.run("cd mnt"), "cd mnt\n");
    assert_eq!(shell.cwd(), "/mnt");
    shell.run("cd src extra words");
    assert_eq!(shell.cwd(), "/mnt/src");
    shell.run("cd /tmp");
    assert_eq!(shell.cwd(), "/tmp");
    shell.run("cd");
    assert_eq!(shell.cwd(), "/tmp");
    shell.run("cdx y");
    assert_eq!(shell.cwd(), "/tmp");
    shell.run("cd ..");
    assert_eq!(shell.cwd(), "/tmp/..");
    shell.run("cd  twice");
    assert_eq!(shell.cwd(), "/tmp/../");
    shell.run("cd ünï");
    assert_eq!(shell.cwd(), "/tmp/../ünï");
}

#[test]
fn paths_are_pushed_as_on_unix() {
    for base in ["", "/", "/a", "/a/", "a", "a/b", "/ä"] {
        for part in ["", "x", "/x", "x/", "x/y", "..", "/", "ö"] {
            assert_eq!(push_onto(&text(base), part), pushed(base, part), "{:?} {:?}", base, part);
        }
    }
}

#[test]
fn words_end_at_spaces() {
    assert_eq!(find_word_end("ab cd", 0), 2);
    assert_eq!(find_word_end("ab cd", 2), 2);
    assert_eq!(find_word_end("ab cd", 3), 5);
    assert_eq!(find_word_end("ab cd", 5), 5);
    assert_eq!(find_word_end("äb\tcd x", 0), 5);
    assert_eq!(find_word_end("", 0), 0);
}

#[test]
fn a_request_holds_the_command_and_its_environment() {
    let request = exec_request(
        "pidof",
        &vec![text("bash"), text("-s")],
        &vec![(text("A"), Some(text("1"))), (text("B"), None), (text("C"), Some(text("")))],
        Some(text("/mnt")),
    );
    assert_eq!(request.cmd, vec![text("pidof"), text("bash"), text("-s")]);
    assert_eq!(request.env, vec![text("A=1"), text("B="), text("C=")]);
    assert_eq!(request.working_dir, Some(text("/mnt")));
    assert!(request.attach_stdout);
    assert!(!request.attach_stdin);
    let bare = exec_request("echo", &Vec::new(), &Vec::new(), None);
    assert_eq!(bare.cmd, vec![text("echo")]);
    assert_eq!(bare.env, Vec::<String>::new());
    assert_eq!(bare.working_dir, None);
    assert_eq!(env_entry("PATH", &Some(text("/bin:/usr/bin"))), "PATH=/bin:/usr/bin");
    assert_eq!(env_entry("EMPTY", &None), "EMPTY=");
}

#[test]
fn output_is_gathered_from_standard_output() {
    let chunks = vec![LogChunk::StdOut(b"hey\n".to_vec())];
    assert_eq!(collect_output(&chunks), "hey");
    let chunks = vec![
        LogChunk::Other,
        LogChunk::StdOut(b"one".to_vec()),
        LogChunk::Other,
        LogChunk::StdOut(b"two\n".to_vec()),
        LogChunk::StdOut(b" three \t\n\n".to_vec()),
        LogChunk::Other,
    ];
    assert_eq!(collect_output(&chunks), "one\ntwo\n\n three");
    assert_eq!(collect_output(&Vec::new()), "");
    assert_eq!(collect_output(&vec![LogChunk::Other]), "");
    assert_eq!(collect_output(&vec![LogChunk::StdOut(Vec::new()), LogChunk::StdOut(Vec::new())]), "");
    assert_eq!(
        collect_output(&vec![LogChunk::StdOut(vec![b'a', 0xff, b'b']), LogChunk::StdOut(b"c".to_vec())]),
        "a\u{fffd}b\nc"
    );
}

#[test]
fn white_space_is_trimmed_from_the_end_only() {
    for sample in [
        "", " ", "a", " a ", "a\n", "a \t\r\n", "  ", "a\u{a0}", "a\u{3000}\u{2028}", "a\u{200b}",
        "é \u{85}", "\u{1680}x\u{1680}", "x\u{180e}", "tab\u{b}\u{c}", "\u{feff}",
    ] {
        assert_eq!(trim_end(sample), sample.trim_end(), "{:?}", sample);
    }
}

#[test]
fn white_space_is_what_the_standard_library_says() {
    let mut code = 0u32;
    while code <= 0x3100 {
        if let Some(c) = char::from_u32(code) {
            assert_eq!(white_space(c), c.is_whitespace(), "{:x}", code);
        }
        code += 1;
    }
    assert!(!white_space('\u{feff}'));
    assert!(!white_space('\u{10ffff}'));
}

#[test]
fn numbers_are_read_as_the_standard_library_reads_them() {
    for sample in [
        "0", "7", "42", "-42", "+42", "007", "-0", "+0", "", "+", "-", " 1", "1 ", "1a", "a1", "--1",
        "+-1", "1.0", "9223372036854775807", "9223372036854775808", "-9223372036854775808",
        "-9223372036854775809", "18446744073709551616", "99999999999999999999999999", "00000000000000000000001",
        "-00000000000000000000009223372036854775808", "١٢٣", "1_000", "0x10",
    ] {
        assert_eq!(parse_number(sample), sample.parse::<i64>().ok(), "{:?}", sample);
    }
}

#[test]
fn the_process_number_is_the_first_word() {
    assert_eq!(parse_pid("1234"), Some(1234));
    assert_eq!(parse_pid("1234 77 5"), Some(1234));
    assert_eq!(parse_pid("1234\n"), None);
    assert_eq!(parse_pid(""), None);
    assert_eq!(parse_pid(" 12"), None);
    assert_eq!(parse_pid("pid 12"), None);
}

#[test]
fn a_file_is_found_from_the_working_directory() {
    let request = list_request(&text("/mnt/project"), "src/main.rs");
    assert_eq!(request.cmd, vec![text("ls"), text("/mnt/project/src/main.rs")]);
    assert_eq!(request.env, Vec::<String>::new());
    assert_eq!(request.working_dir, Some(text("/mnt/project")));
    assert!(request.attach_stdout && !request.attach_stdin);
    let absolute = list_request(&text("/mnt"), "/etc/hosts");
    assert_eq!(absolute.cmd, vec![text("ls"), text("/etc/hosts")]);
    assert_eq!(absolute.working_dir, Some(text("/mnt")));
}

#[test]
fn a_file_is_read_with_cat() {
    let request = read_request("/mnt/a b.rs");
    assert_eq!(request.cmd, vec![text("cat"), text("/mnt/a b.rs")]);
    assert_eq!(request.env, Vec::<String>::new());
    assert_eq!(request.working_dir, None);
    assert!(request.attach_stdout && !request.attach_stdin);
}

#[test]
fn a_file_is_saved_from_standard_input() {
    let request = save_request("/mnt/main.rs");
    assert_eq!(request.cmd, vec![text("cp"), text("/dev/stdin"), text("/mnt/main.rs")]);
    assert_eq!(request.env, Vec::<String>::new());
    assert_eq!(request.working_dir, None);
    assert!(!request.attach_stdout && request.attach_stdin);
}

#[test]
fn the_tracer_is_run_through_cargo() {
    let request = vis_request(&text("/mnt/project"));
    assert_eq!(request.cmd, vec![text("cargo"), text("mirivis")]);
    assert_eq!(request.env, vec![text("RUSTC_LOG=error")]);
    assert_eq!(request.working_dir, Some(text("/mnt/project")));
    assert!(request.attach_stdout && !request.attach_stdin);
}

#[test]
fn the_plugin_names_its_driver() {
    assert_eq!(MirivisPlugin::bin_name(), "mirivis-driver");
}

#[test]
fn growable_sequences_are_the_well_known_type() {
    assert_eq!(TypeDefIds::well_known_paths(), vec![text("std::vec::Vec")]);
}

#[test]
fn a_process_is_asked_for_by_name() {
    let request = pid_request("bash");
    assert_eq!(request.cmd, vec![text("pidof"), text("bash")]);
    assert_eq!(request.env, Vec::<String>::new());
    assert_eq!(request.working_dir, None);
    assert!(request.attach_stdout && !request.attach_stdin);
}

#[test]
fn a_container_is_abandoned_until_it_is_cleaned_up() {
    let mut container = Container::new(text("4f2a"));
    assert_eq!(container.id(), "4f2a");
    assert!(container.abandoned());
    container.cleanup();
    assert!(!container.abandoned());
    assert_eq!(container.id(), "4f2a");
}
