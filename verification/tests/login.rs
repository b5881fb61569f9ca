use qemu_agent::login::{
    find_user, login_vars, plan_command, program_files, Identity, DEFAULT_PATH,
};
use qemu_agent::path::FilePath;

const PASSWD: &[u8] = b"root:x:0:0:root:/root:/bin/sh\n\
    broken:x:0\n\
    bin:x:1:1:bin:/bin:/sbin/nologin\n\
    toor:x:0:0:root:/toor:/bin/sh\n\
    odd:x:1000:1000::/home/\xff:/bin/ash";

fn identity(user: &[u8], home: &[u8]) -> Identity {
    Identity {
        user: user.to_vec(),
        home: FilePath::new(home.to_vec()),
    }
}

fn vars(list: &[(&str, &str)]) -> Vec<(Vec<u8>, Vec<u8>)> {
    list.iter()
        .map(|(key, value)| (key.as_bytes().to_vec(), value.as_bytes().to_vec()))
        .collect()
}

fn shown(paths: &[FilePath]) -> Vec<String> {
    paths.iter().map(|path| path.display()).collect()
}

#[test]
fn users_are_found_by_number() {
    assert_eq!(find_user(PASSWD, 0), Some(identity(b"root", b"/root")));
    assert_eq!(find_user(PASSWD, 1), Some(identity(b"bin", b"/bin")));
    assert_eq!(
        find_user(PASSWD, 1000),
        Some(identity(b"odd", b"/home/\xff"))
    );
    assert_eq!(find_user(PASSWD, 2), None);
    assert_eq!(find_user(PASSWD, 10), None);
    assert_eq!(find_user(b"", 0), None);
}

#[test]
fn lines_that_are_no_entries_are_passed_over() {
    assert_eq!(find_user(b"root:x:0:0:root:/root\n", 0), None);
    assert_eq!(find_user(b"root:x:0:0:root:/root:/bin/sh:more", 0), None);
    assert_eq!(find_user(b"root:x:00:0:root:/root:/bin/sh", 0), None);
    assert_eq!(
        find_user(b"\n::0::::\n", 0),
        Some(identity(b"", b""))
    );
}

#[test]
fn a_login_sets_its_variables() {
    let before = vars(&[
        ("USER", "me"),
        ("LANG", "C"),
        ("PATH", "/opt/bin"),
        ("PATHS", "1"),
        ("HOME", "/"),
    ]);
    assert_eq!(
        login_vars(&before, &identity(b"root", b"/root")),
        vars(&[
            ("LANG", "C"),
            ("PATHS", "1"),
            ("USER", "root"),
            ("HOME", "/root"),
            ("PATH", DEFAULT_PATH),
        ])
    );
}

#[test]
fn programs_are_looked_up() {
    assert_eq!(
        shown(&program_files("env", "/usr/bin::/bin/")),
        ["/usr/bin/env", "env", "/bin/env"]
    );
    assert_eq!(shown(&program_files("/bin/sh", "/usr/bin")), ["/bin/sh"]);
    assert_eq!(shown(&program_files("./sh", "/usr/bin")), ["./sh"]);
    assert_eq!(shown(&program_files("sh", "")), ["sh"]);
}

#[test]
fn a_users_command_gets_a_session() {
    let root = identity(b"root", b"/root");
    let plan = plan_command("env", &vars(&[("HOME", "/"), ("TERM", "linux")]), Some(&root));
    assert_eq!(plan.dir, Some(FilePath::of_text("/root")));
    assert_eq!(
        shown(&plan.programs),
        [
            "/usr/local/sbin/env",
            "/usr/local/bin/env",
            "/usr/sbin/env",
            "/usr/bin/env",
            "/sbin/env",
            "/bin/env",
        ]
    );
    let expected: Vec<Vec<u8>> = vec![
        b"USER=root".to_vec(),
        b"HOME=/root".to_vec(),
        format!("PATH={}", DEFAULT_PATH).into_bytes(),
        b"TERM=xterm-256color".to_vec(),
    ];
    assert_eq!(plan.env, expected);
    assert!(DEFAULT_PATH.starts_with("/usr/local/sbin:"));
}

#[test]
fn without_a_user_everything_stays() {
    let plan = plan_command("env", &vars(&[("HOME", "/"), ("TERM", "linux")]), None);
    assert_eq!(plan.dir, None);
    assert_eq!(shown(&plan.programs), ["env"]);
    let expected: Vec<Vec<u8>> = vec![b"HOME=/".to_vec(), b"TERM=xterm-256color".to_vec()];
    assert_eq!(plan.env, expected);
}
