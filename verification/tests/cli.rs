use oxide::cli::{is_in_ram, parse_args, Invocation, RAMFS_MAGIC, TMPFS_MAGIC, USAGE};

fn parse(args: &[&str]) -> Invocation {
    let args: Vec<String> = args.iter().map(|arg| arg.to_string()).collect();
    parse_args(&args)
}

fn run(args: &[&str]) -> (String, bool) {
    match parse(args) {
        Invocation::Run { root, process_all } => (root, process_all),
        _ => panic!("no run"),
    }
}

#[test]
fn directory_alone_is_run_for_new_files() {
    assert_eq!(run(&["/music"]), ("/music".to_string(), false));
}

#[test]
fn all_flag_stands_anywhere() {
    assert_eq!(run(&["--all", "/music"]), ("/music".to_string(), true));
    assert_eq!(run(&["/music", "-a"]), ("/music".to_string(), true));
    assert_eq!(run(&["-a", "--all", "/music", "-a"]), ("/music".to_string(), true));
}

#[test]
fn empty_argument_is_a_directory() {
    assert_eq!(run(&[""]), (String::new(), false));
}

#[test]
fn usage_without_a_directory() {
    assert!(matches!(parse(&[]), Invocation::Usage));
    assert!(matches!(parse(&["--all"]), Invocation::Usage));
    assert_eq!(USAGE, "Usage: oxide [--all|-a] <DIRECTORY>");
}

#[test]
fn unknown_option_is_named() {
    for args in [&["--help"][..], &["/music", "--help"][..], &["-a", "--help", "x", "y"][..]] {
        match parse(args) {
            Invocation::UnknownOption(option) => assert_eq!(option, "--help"),
            _ => panic!("option taken"),
        }
    }
    assert!(matches!(parse(&["-"]), Invocation::UnknownOption(_)));
    assert!(matches!(parse(&["--ALL"]), Invocation::UnknownOption(_)));
    assert!(matches!(parse(&["-all"]), Invocation::UnknownOption(_)));
}

#[test]
fn second_directory_is_refused() {
    assert!(matches!(parse(&["/a", "/b"]), Invocation::ExtraArgument));
    assert!(matches!(parse(&["/a", "--all", "/b"]), Invocation::ExtraArgument));
}

#[test]
fn first_fault_decides() {
    assert!(matches!(parse(&["/a", "/b", "--x"]), Invocation::ExtraArgument));
    assert!(matches!(parse(&["/a", "--x", "/b"]), Invocation::UnknownOption(_)));
}

#[test]
fn memory_filesystems_are_known() {
    assert_eq!(TMPFS_MAGIC, 0x0102_1994);
    assert_eq!(RAMFS_MAGIC, 2_240_043_254);
    assert!(is_in_ram(Some(0x0102_1994)));
    assert!(is_in_ram(Some(0x8584_58f6)));
    assert!(!is_in_ram(Some(0xef53)));
    assert!(!is_in_ram(Some(-2_054_924_042)));
    assert!(!is_in_ram(None));
}
