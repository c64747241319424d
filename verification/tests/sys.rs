use irc_plugins::sys::{command, names_a_program, reply};

#[test]
fn sys_command() {
    let (p, args) = command(true, "% ls -l /tmp").unwrap();
    assert_eq!(p, "ls");
    assert_eq!(args, vec!["-l".to_string(), "/tmp".to_string()]);
    let (p, args) = command(true, "% uptime").unwrap();
    assert_eq!(p, "uptime");
    assert!(args.is_empty());
    assert!(command(false, "% ls").is_none());
    assert!(command(true, "ls").is_none());
    assert!(names_a_program(true, "% ls"));
    assert!(!names_a_program(true, "%"));
    assert!(names_a_program(false, "%"));
}

#[test]
fn sys_reply() {
    let r = reply("#c", &Ok(b"line one\nline\ttwo\n".to_vec()));
    assert_eq!(r.target, "#c");
    assert_eq!(r.text, "line one line two ");
    let r = reply("#c", &Ok(vec![]));
    assert_eq!(r.text, "No output.");
    let r = reply("#c", &Err("No such file or directory (os error 2)".to_string()));
    assert_eq!(r.text, "Failed to execute command; No such file or directory (os error 2).");
    let r = reply("#c", &Ok(vec![0x66, 0xff, 0x6f]));
    assert_eq!(r.text, "f\u{fffd}o");
    let r = reply("#c", &Ok("a\u{2003}b".as_bytes().to_vec()));
    assert_eq!(r.text, "a b");
}
