use qemu_agent::command::{Arg, CommandLine, Stdio};
use qemu_agent::kernel::format_init_args;
use qemu_agent::path::FilePath;
use qemu_agent::qemu::{
    disk_format, ensure_exists, gvproxy_command, gvproxy_readiness, gvproxy_spawn_failure,
    notify_socket, vm_command, Presence, Readiness, VmLaunchOpts,
};
use qemu_agent::vmctl::{
    boot_step, find_root_fs, init_env, init_message, launch_opts, root_fs_candidates,
    select_root_fs, session_outcome, session_serial, shell_process_command, vm_complaint,
    vm_process_command,
    Boot, CommonVmArgs, QemuArgs,
};
use qemu_agent::{launch, ErrorKind};
use tempdir::TempDir;

fn path(text: &str) -> FilePath {
    FilePath::of_text(text)
}

fn strings(list: &[&str]) -> Vec<String> {
    list.iter().map(|text| text.to_string()).collect()
}

/// The arguments of a command as text, paths included.
fn shown(command: &CommandLine) -> Vec<String> {
    command
        .args
        .iter()
        .map(|arg| match arg {
            Arg::Text(text) => text.clone(),
            Arg::Path(path) => format!("path:{}", path.display()),
        })
        .collect()
}

fn opts() -> VmLaunchOpts {
    VmLaunchOpts {
        dump_boot_log: false,
        serial_path: path("/tmp/vm/vm-server"),
        recovery: false,
        cores: 2,
        memory_megs: 512,
        root_fs: path("vm/rootfs.qcow2"),
        kernel: path("Image"),
        initrd: path("initrd.gz"),
        emulate: true,
        command: Vec::new(),
        additional_disks: Vec::new(),
        net_port: 40123,
    }
}

fn all_there(disks: usize) -> Presence {
    Presence {
        disks: vec![true; disks],
        root_fs: true,
        kernel: true,
        initrd: true,
    }
}

#[test]
fn init_args_are_joined_and_quoted() {
    assert_eq!(format_init_args(&vec![]), Ok(None));
    assert_eq!(
        format_init_args(&strings(&["/bin/sh", "-c", "echo Hi | md5sum"])),
        Ok(Some("/bin/sh -c \"echo Hi | md5sum\"".to_string()))
    );
    assert_eq!(format_init_args(&strings(&[" "])), Ok(Some("\" \"".to_string())));
    assert_eq!(format_init_args(&strings(&["a", "", "b"])), Ok(Some("a  b".to_string())));
}

#[test]
fn init_args_with_a_quote_are_refused() {
    let err = format_init_args(&strings(&["echo", "say \"hi\"", "\""])).unwrap_err();
    assert_eq!(err.kind(), ErrorKind::InvalidInput);
    assert_eq!(
        err.message(),
        "double quotes are not supported in command arguments: say \"hi\""
    );
}

#[test]
fn disk_format_goes_by_the_extension() {
    let qcow2 = ["a.qcow2", "dir/a.QCOW2", "a.b.Qcow2", "a.qcow2/", "a.qcow2/.", "..qcow2"];
    for name in qcow2 {
        assert_eq!(disk_format(&path(name)), "qcow2");
    }
    let raw = [
        "a.raw", "a", "", "/", ".", "..", ".qcow2", "dir/.qcow2", "qcow2", "a.qcow2.img", "a.qcow",
        "a.qcow22", "a.qcow2/..", "a.qcow2/b", "a.",
    ];
    for name in raw {
        assert_eq!(disk_format(&path(name)), "raw");
    }
}

#[test]
fn extensions_agree_with_the_standard_library() {
    let names = [
        "a.qcow2", "a.b/c", "a/b.qcow2//", "./a.qcow2", "../a.qcow2", "a/./b.qcow2/./.", "...qcow2",
        ".a.qcow2", "a..qcow2", "/.qcow2", "//a.qcow2", "a/../b.qcow2", "a.qcow2/../", "..", "a./b",
    ];
    for name in names {
        let expected = std::path::Path::new(name)
            .extension()
            .map_or(false, |ext| ext.eq_ignore_ascii_case("qcow2"));
        assert_eq!(path(name).has_extension("qcow2"), expected);
        for dir in ["", "/", "x", "x/", "x/y", "."] {
            let joined = std::path::Path::new(dir).join(name);
            assert_eq!(path(dir).join(name), path(joined.to_str().unwrap()));
        }
    }
    assert_eq!(path("x").join(""), path("x/"));
}

#[test]
fn paths_that_are_no_text_are_shown_with_replacements() {
    let odd = FilePath::new(vec![b'a', 0xff, b'b']);
    assert_eq!(odd.display(), "a\u{fffd}b");
    assert_eq!(path("d\u{e9}j\u{e0}").display(), "d\u{e9}j\u{e0}");
    assert_eq!(odd.clone(), odd);
}

#[test]
fn missing_files_are_not_found() {
    assert_eq!(ensure_exists(&path("x"), "disk image", true), Ok(()));
    let err = ensure_exists(&path("x.img"), "disk image", false).unwrap_err();
    assert_eq!(err.kind(), ErrorKind::NotFound);
    assert_eq!(err.message(), "disk image not found: x.img");
}

#[test]
fn the_whole_vm_command() {
    let mut opts = opts();
    opts.command = strings(&["/bin/sh", "-c", "uname -a"]);
    opts.additional_disks = vec![path("data.img"), path("more.qcow2")];
    let command = vm_command(&opts, &all_there(2)).unwrap();
    assert_eq!(command.program, Arg::Text("qemu-system-aarch64".to_string()));
    assert_eq!(
        shown(&command),
        [
            "-cpu",
            "cortex-a76",
            "-nodefaults",
            "-no-user-config",
            "-nographic",
            "-no-reboot",
            "-M",
            "virt",
            "-smp",
            "cpus=1,sockets=1,cores=2,threads=1",
            "-m",
            "512M",
            "-drive",
            "id=disk1,file=more.qcow2,format=qcow2,if=none",
            "-device",
            "virtio-blk-device,drive=disk1",
            "-drive",
            "id=disk0,file=data.img,format=raw,if=none",
            "-device",
            "virtio-blk-device,drive=disk0",
            "-drive",
            "id=root,file=vm/rootfs.qcow2,format=qcow2,if=none",
            "-device",
            "virtio-blk-device,drive=root",
            "-device",
            "virtio-net-device,netdev=net1",
            "-netdev",
            "socket,id=net1,connect=127.0.0.1:40123",
            "-device",
            "virtio-serial-device",
            "-chardev",
            "stdio,signal=off,id=console-hvc0",
            "-device",
            "virtconsole,chardev=console-hvc0",
            "-chardev",
            "pty,signal=off,path=/tmp/vm/vm-server,id=host-pty",
            "-device",
            "virtserialport,chardev=host-pty",
            "-rtc",
            "base=utc,clock=host",
            "-device",
            "virtio-rng-pci",
            "-kernel",
            "path:Image",
            "-initrd",
            "path:initrd.gz",
            "-append",
            "console=hvc0 reboot=t panic=-1 rdinit=/init -- /bin/sh -c \"uname -a\"",
        ]
    );
    assert_eq!(command.stdin, Stdio::Null);
    assert_eq!(command.stdout, Stdio::Null);
    assert_eq!(command.stderr, Stdio::Null);
}

#[test]
fn the_guest_finds_its_disks_in_the_given_order() {
    let mut opts = opts();
    opts.root_fs = path("r.raw");
    opts.additional_disks = vec![path("a.raw"), path("b.qcow2")];
    let args = shown(&vm_command(&opts, &all_there(2)).unwrap());
    let drives: Vec<&str> = args
        .iter()
        .map(String::as_str)
        .filter(|arg| arg.starts_with("id=") && arg.contains(",file="))
        .collect();
    let devices: Vec<&str> = args
        .iter()
        .map(String::as_str)
        .filter(|arg| arg.starts_with("virtio-blk-device"))
        .collect();
    // The guest counts its devices from the end: /dev/vda, /dev/vdb, /dev/vdc.
    let counted = |list: Vec<&str>| -> Vec<String> {
        list.iter().rev().map(|arg| arg.to_string()).collect()
    };
    assert_eq!(
        counted(drives),
        [
            "id=root,file=r.raw,format=raw,if=none",
            "id=disk0,file=a.raw,format=raw,if=none",
            "id=disk1,file=b.qcow2,format=qcow2,if=none",
        ]
    );
    assert_eq!(
        counted(devices),
        [
            "virtio-blk-device,drive=root",
            "virtio-blk-device,drive=disk0",
            "virtio-blk-device,drive=disk1",
        ]
    );
}

#[test]
fn options_change_the_vm_command() {
    let mut opts = opts();
    opts.emulate = false;
    opts.recovery = true;
    opts.dump_boot_log = true;
    let command = vm_command(&opts, &all_there(0)).unwrap();
    let args = shown(&command);
    assert_eq!(args[..5], ["-accel", "hvf", "-cpu", "host", "-nodefaults"]);
    assert_eq!(
        args[args.len() - 1],
        "console=hvc0 reboot=t panic=-1 rdinit=/init init_recovery=1"
    );
    assert_eq!(command.stdin, Stdio::Null);
    assert_eq!(command.stdout, Stdio::Inherit);
    assert_eq!(command.stderr, Stdio::Inherit);
}

#[test]
fn a_vm_is_not_run_without_its_files() {
    let mut opts = opts();
    opts.additional_disks = vec![path("a.img"), path("b.img")];
    let mut found = all_there(2);
    found.initrd = false;
    let message = |found: &Presence| {
        let err = vm_command(&opts, found).unwrap_err();
        assert_eq!(err.kind(), ErrorKind::NotFound);
        err.message
    };
    assert_eq!(message(&found), "initrd image not found: initrd.gz");
    found.kernel = false;
    assert_eq!(message(&found), "kernel image not found: Image");
    found.root_fs = false;
    assert_eq!(message(&found), "root fs image not found: vm/rootfs.qcow2");
    found.disks = vec![true, false];
    assert_eq!(message(&found), "disk image not found: b.img");
    found.disks = vec![false, false];
    assert_eq!(message(&found), "disk image not found: a.img");

    found.disks = vec![true];
    assert_eq!(message(&found), "disk image not found: b.img");

    opts.command = strings(&["\""]);
    let err = vm_command(&opts, &found).unwrap_err();
    assert_eq!(err.kind(), ErrorKind::InvalidInput);
}

#[test]
fn gvproxy_is_told_where_to_listen() {
    let socket = notify_socket(&path("/tmp/gvproxy.x"));
    assert_eq!(socket, path("/tmp/gvproxy.x/notify.sock"));
    let command = gvproxy_command(4000, &socket, false);
    assert_eq!(command.program, Arg::Text("gvproxy".to_string()));
    assert_eq!(
        shown(&command),
        [
            "-listen-qemu",
            "tcp://127.0.0.1:4000",
            "-notification",
            "unix:///tmp/gvproxy.x/notify.sock",
            "-ssh-port",
            "-1",
        ]
    );
    assert_eq!(
        (command.stdin, command.stdout, command.stderr),
        (Stdio::Null, Stdio::Null, Stdio::Null)
    );
    let command = gvproxy_command(4000, &socket, true);
    assert_eq!(shown(&command)[6..], ["-debug"]);
    assert_eq!(
        (command.stdin, command.stdout, command.stderr),
        (Stdio::Null, Stdio::Inherit, Stdio::Inherit)
    );
    assert_eq!(
        gvproxy_spawn_failure("no such file"),
        "cannot spawn gvproxy (is it on PATH?): no such file"
    );
}

#[test]
fn gvproxy_reports_when_it_is_ready() {
    let ready = "{\"notification_type\":\"ready\"}\n";
    assert_eq!(gvproxy_readiness(Some(ready)), Readiness::Ready);
    assert_eq!(gvproxy_readiness(Some("\"ready\"")), Readiness::Ready);
    assert_eq!(gvproxy_readiness(Some("ready\n")), Readiness::Waiting);
    assert_eq!(gvproxy_readiness(Some("\"ready")), Readiness::Waiting);
    assert_eq!(gvproxy_readiness(Some("")), Readiness::Waiting);
    match gvproxy_readiness(None) {
        Readiness::Failed(err) => {
            assert_eq!(err.kind(), ErrorKind::Other);
            assert_eq!(err.message(), "gvproxy closed the notification socket");
        }
        other => panic!("{other:?}"),
    }
}

fn agent_opts() -> launch::VmLaunchOpts {
    launch::VmLaunchOpts {
        dump_boot_log: false,
        serial_path: path("./console"),
        recovery: false,
        emulate: false,
        command: strings(&["ls", "a b"]),
    }
}

#[test]
fn the_whole_launch_command() {
    let command = launch::launch_command(&agent_opts(), &path("/work")).unwrap();
    assert_eq!(
        shown(&command),
        [
            "-accel",
            "hvf",
            "-cpu",
            "host",
            "-nodefaults",
            "-no-user-config",
            "-nographic",
            "-no-reboot",
            "-M",
            "virt",
            "-smp",
            "cpus=1,sockets=1,cores=1,threads=1",
            "-m",
            "1G",
            "-device",
            "virtio-serial-device",
            "-chardev",
            "stdio,signal=off,id=console-hvc0",
            "-device",
            "virtconsole,chardev=console-hvc0",
            "-chardev",
            "pty,signal=off,path=./console,id=console-hvc1",
            "-device",
            "virtserialport,chardev=console-hvc1",
            "-drive",
            "id=root,file=rootfs-overlay.qcow2,format=qcow2,if=none",
            "-device",
            "virtio-blk-device,drive=root",
            "-device",
            "virtio-net-device,netdev=net1",
            "-netdev",
            "user,id=net1",
            "-rtc",
            "base=utc,clock=host",
            "-device",
            "virtio-rng-pci",
            "-virtfs",
            "local,path=/work,mount_tag=qemu,security_model=mapped",
            "-kernel",
            "../Image",
            "-initrd",
            "../initrd.gz",
            "-append",
            "console=hvc0 reboot=t panic=-1  rdinit=/init -- ls \"a b\"",
        ]
    );
    assert_eq!(
        (command.stdin, command.stdout, command.stderr),
        (Stdio::Piped, Stdio::Piped, Stdio::Piped)
    );
}

#[test]
fn recovery_ignores_the_command() {
    let mut opts = agent_opts();
    opts.command = strings(&["\""]);
    let err = launch::launch_command(&opts, &path("/work")).unwrap_err();
    assert_eq!(err.kind(), ErrorKind::InvalidInput);
    opts.recovery = true;
    opts.emulate = true;
    opts.dump_boot_log = true;
    let command = launch::launch_command(&opts, &path("/work")).unwrap();
    let args = shown(&command);
    assert_eq!(args[..3], ["-cpu", "cortex-a76", "-nodefaults"]);
    assert_eq!(
        args[args.len() - 1],
        "console=hvc0 reboot=t panic=-1 init_recovery rdinit=/init"
    );
    assert_eq!(
        (command.stdin, command.stdout, command.stderr),
        (Stdio::Piped, Stdio::Inherit, Stdio::Inherit)
    );
}

#[test]
fn the_overlay_is_created_once() {
    assert_eq!(launch::overlay_command(true), None);
    let command = launch::overlay_command(false).unwrap();
    assert_eq!(command.program, Arg::Text("qemu-img".to_string()));
    assert_eq!(
        shown(&command),
        [
            "create",
            "-o",
            "backing_file=../rootfs.qcow2,backing_fmt=qcow2",
            "-f",
            "qcow2",
            "rootfs-overlay.qcow2",
        ]
    );
    assert_eq!(launch::overlay_result(true, "exit status: 0"), Ok(()));
    let err = launch::overlay_result(false, "exit status: 1").unwrap_err();
    assert_eq!(err.kind(), ErrorKind::Other);
    assert_eq!(err.message(), "qemu-img create failed: exit status: 1");
    assert_eq!(launch::launch_result(true), Ok(()));
    let err = launch::launch_result(false).unwrap_err();
    assert_eq!(err.message(), "VM failed, use --boot-log to inspect details");
}

/// Look for the root filesystem image in a directory on disk.
fn find_on_disk(data_dir: &std::path::Path) -> Option<FilePath> {
    let data_dir = path(data_dir.to_str().unwrap());
    let (qcow2, raw) = root_fs_candidates(&data_dir);
    let is_file = |path: &FilePath| std::path::Path::new(&path.display()).is_file();
    find_root_fs(&data_dir, is_file(&qcow2), is_file(&raw))
}

#[test]
fn find_root_fs_on_uninitialized_dir() {
    let tmp = TempDir::new("find-root-fs").unwrap();
    // Missing directory
    assert_eq!(find_on_disk(&tmp.path().join("vm")), None);
    // Existing but empty directory
    assert_eq!(find_on_disk(tmp.path()), None);
}

#[test]
fn qcow2_takes_priority_over_raw() {
    let dir = path("vm");
    assert_eq!(find_root_fs(&dir, true, true), Some(path("vm/rootfs.qcow2")));
    assert_eq!(find_root_fs(&dir, true, false), Some(path("vm/rootfs.qcow2")));
    assert_eq!(find_root_fs(&dir, false, true), Some(path("vm/rootfs.raw")));
    assert_eq!(find_root_fs(&dir, false, false), None);
}

#[test]
fn an_environment_is_set_up_once() {
    let dir = path("vm");
    let source = path("base.qcow2");
    let dst = init_env(&dir, &source, true, false, false).unwrap();
    assert_eq!(dst, path("vm/rootfs.qcow2"));
    let err = init_env(&dir, &source, true, true, false).unwrap_err();
    assert_eq!(err.kind(), ErrorKind::AlreadyExists);
    assert_eq!(
        err.message(),
        "VM environment already initialized: vm/rootfs.qcow2"
    );
    let dst = init_env(&dir, &path("base.img"), true, false, false).unwrap();
    assert_eq!(dst, path("vm/rootfs.raw"));
    assert_eq!(disk_format(&dst), disk_format(&path("base.img")));
    let err = init_env(&dir, &source, false, true, true).unwrap_err();
    assert_eq!(err.kind(), ErrorKind::NotFound);
    assert_eq!(err.message(), "root fs image not found: base.qcow2");
    assert_eq!(
        init_message(&dir, &dst),
        "Initialized VM environment in vm (root fs: vm/rootfs.raw)"
    );
}

#[test]
fn init_env_fails_if_already_initialized() {
    let tmp = TempDir::new("init-env").unwrap();
    let data_dir = path(tmp.path().join("vm").to_str().unwrap());
    let src = path(tmp.path().join("base.qcow2").to_str().unwrap());

    let root_fs = init_env(&data_dir, &src, true, false, false).unwrap();
    let (qcow2, raw) = root_fs_candidates(&data_dir);
    let err = init_env(&data_dir, &src, true, root_fs == qcow2, root_fs == raw).unwrap_err();
    assert_eq!(err.kind(), ErrorKind::AlreadyExists);
}

#[test]
fn an_explicit_image_wins() {
    let dir = path("vm");
    assert_eq!(
        select_root_fs(Some(path("x.raw")), &dir, true, true),
        Ok(path("x.raw"))
    );
    assert_eq!(
        select_root_fs(None, &dir, false, true),
        Ok(path("vm/rootfs.raw"))
    );
    assert_eq!(
        select_root_fs(None, &dir, false, false),
        Err("run: VM environment is not initialized in vm, run `vmctl init` first".to_string())
    );
}

fn vm_args() -> CommonVmArgs {
    CommonVmArgs {
        dump_boot_log: false,
        recovery: false,
        emulate: false,
        additional_disks: Vec::new(),
        memory_megs: 512,
        cores: 1,
        command: Vec::new(),
    }
}

#[test]
fn a_session_is_two_processes() {
    let vmctl = path("/bin/vmctl");
    let serial = session_serial(&path("/tmp/vm.x"));
    assert_eq!(serial, path("/tmp/vm.x/vm-server"));
    let plain = vm_process_command(&vmctl, &path("r.qcow2"), &serial, &vm_args());
    assert_eq!(plain.program, Arg::Path(vmctl.clone()));
    let required = [
        "qemu",
        "--root-fs",
        "path:r.qcow2",
        "--serial",
        "path:/tmp/vm.x/vm-server",
        "--memory",
        "512",
        "--cores",
        "1",
    ];
    assert_eq!(shown(&plain), required);
    assert_eq!(
        (plain.stdin, plain.stdout, plain.stderr),
        (Stdio::Null, Stdio::Inherit, Stdio::Inherit)
    );

    let mut vm = vm_args();
    vm.dump_boot_log = true;
    vm.recovery = true;
    vm.emulate = true;
    vm.additional_disks = vec![path("a.img"), path("b.img")];
    vm.command = strings(&["ls", "-l"]);
    let full = vm_process_command(&vmctl, &path("r.qcow2"), &serial, &vm);
    assert_eq!(
        shown(&full)[9..],
        [
            "--boot-log",
            "--recovery",
            "--emulate",
            "--disk",
            "path:a.img",
            "--disk",
            "path:b.img",
            "--",
            "ls",
            "-l",
        ]
    );

    let shell = shell_process_command(&vmctl, &serial);
    assert_eq!(
        shown(&shell),
        ["shell", "--serial", "path:/tmp/vm.x/vm-server"]
    );
    assert_eq!(shell.stdin, Stdio::Inherit);
}

#[test]
fn booting_is_waited_for() {
    assert_eq!(boot_step(true, false), Boot::Attach);
    assert_eq!(boot_step(true, true), Boot::Attach);
    assert_eq!(boot_step(false, false), Boot::Wait);
    match boot_step(false, true) {
        Boot::Failed(err) => assert_eq!(
            err.message(),
            "VM failed, use --boot-log to inspect details"
        ),
        other => panic!("{other:?}"),
    }
}

#[test]
fn the_shell_decides_the_exit_code_of_a_session() {
    for vm in [Some(0), Some(3), Some(255), Some(-1), None] {
        for code in [0u8, 1, 7, 137, 255] {
            assert_eq!(session_outcome(vm, Some(code.into())).code, code);
        }
        assert_eq!(session_outcome(vm, None).code, 1);
        assert_eq!(session_outcome(vm, Some(256)).code, 255);
    }
}

#[test]
fn a_failed_vm_is_complained_about() {
    let complaint = Some("VM failed, use --boot-log to inspect details".to_string());
    assert_eq!(vm_complaint(Some(0)), None);
    assert_eq!(vm_complaint(Some(1)), complaint);
    assert_eq!(vm_complaint(Some(-1)), complaint);
    assert_eq!(vm_complaint(None), complaint);
    assert_eq!(session_outcome(Some(0), Some(1)).complaint, None);
    assert_eq!(session_outcome(Some(1), Some(0)).complaint, complaint);
    assert_eq!(session_outcome(None, Some(0)).complaint, complaint);
}

#[test]
fn arguments_become_launch_options() {
    let mut vm = vm_args();
    vm.emulate = true;
    vm.memory_megs = 64;
    vm.cores = 3;
    vm.command = strings(&["ls"]);
    vm.additional_disks = vec![path("a.img")];
    let args = QemuArgs {
        root_fs: path("r.qcow2"),
        serial: path("pty"),
        vm,
    };
    let opts = launch_opts(args, 9);
    assert_eq!(
        opts,
        VmLaunchOpts {
            dump_boot_log: false,
            serial_path: path("pty"),
            recovery: false,
            cores: 3,
            memory_megs: 64,
            root_fs: path("r.qcow2"),
            kernel: path("./linux/arch/arm64/boot/Image"),
            initrd: path("./target/initrd.gz"),
            emulate: true,
            command: strings(&["ls"]),
            additional_disks: vec![path("a.img")],
            net_port: 9,
        }
    );
}
