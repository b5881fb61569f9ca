//! VM environments: a data directory with a root filesystem image, and the
//! processes that make up a session on it.
use crate::command::{
    args_view, differ_behind, given, given_number, lemma_differ_joined, lemma_given_in,
    lemma_number_given_in, push_path, push_strings, push_text, push_words, text_args, words, Arg,
    ArgView, CommandLine, CommandView, Stdio,
};
use crate::error::{Error, ErrorKind, ErrorView};
use crate::launch::vm_failure;
use crate::path::FilePath;
use crate::qemu::{VmLaunchOpts, DEFAULT_INITRD, DEFAULT_KERNEL};
use crate::status::propagate_status;
use crate::text::to_decimal;
use vstd::prelude::*;
use vstd::utf8::encode_utf8;

verus! {

/// Default VM data directory.
pub const DEFAULT_DATA_DIR: &'static str = ".vm";

/// Name of a qcow2 root filesystem image in a data directory.
pub const QCOW2_IMAGE: &'static str = "rootfs.qcow2";

/// Name of a raw root filesystem image in a data directory.
pub const RAW_IMAGE: &'static str = "rootfs.raw";

/// Options common to booting a VM and to running a session on one.
#[derive(Debug, PartialEq, Eq)]
pub struct CommonVmArgs {
    /// Dump VM boot logs to the stdout
    pub dump_boot_log: bool,
    /// Run VM init in a recovery mode
    pub recovery: bool,
    /// Run in emulation mode (without using hypervisor)
    pub emulate: bool,
    /// Additional disk images. Disks appear in the guest as /dev/vdb, /dev/vdc,
    /// ... in the given order
    pub additional_disks: Vec<FilePath>,
    /// Amount of memory in VM in megabytes
    pub memory_megs: u32,
    /// Number of cores
    pub cores: u16,
    /// Command to run in the VM instead of the default login shell
    pub command: Vec<String>,
}

/// How to boot a VM.
#[derive(Debug, PartialEq, Eq)]
pub struct QemuArgs {
    /// Root filesystem disk image booted read-write as /dev/vda
    pub root_fs: FilePath,
    /// Path where the serial pty connected to the VM-server is created
    pub serial: FilePath,
    /// Common options
    pub vm: CommonVmArgs,
}

/// The name of the clone of a root filesystem image: its format is kept.
pub open spec fn image_name(source: Seq<u8>) -> Seq<char> {
    if crate::path::has_extension(source, encode_utf8("qcow2"@)) {
        QCOW2_IMAGE@
    } else {
        RAW_IMAGE@
    }
}

/// The image `name` in a data directory.
pub open spec fn image_in(data_dir: Seq<u8>, name: Seq<char>) -> Seq<u8> {
    crate::path::joined(data_dir, encode_utf8(name))
}

/// The root filesystem image of a data directory, given which of the two
/// possible files are there.
pub open spec fn found_image(data_dir: Seq<u8>, has_qcow2: bool, has_raw: bool) -> Option<
    Seq<u8>,
> {
    if has_qcow2 {
        Some(image_in(data_dir, QCOW2_IMAGE@))
    } else if has_raw {
        Some(image_in(data_dir, RAW_IMAGE@))
    } else {
        None
    }
}

/// What setting up a data directory comes to: where the image is cloned to, or
/// why it is not.
pub open spec fn init_target(
    data_dir: Seq<u8>,
    source: Seq<u8>,
    source_exists: bool,
    has_qcow2: bool,
    has_raw: bool,
) -> Result<Seq<u8>, ErrorView> {
    if !source_exists {
        Err(crate::qemu::not_found(source, "root fs image"@))
    } else {
        match found_image(data_dir, has_qcow2, has_raw) {
            Some(existing) => Err(
                ErrorView {
                    kind: ErrorKind::AlreadyExists,
                    message: "VM environment already initialized: "@
                        + crate::path::lossy_text(existing),
                },
            ),
            None => Ok(image_in(data_dir, image_name(source))),
        }
    }
}

/// The two places where the root filesystem image of a data directory may be,
/// the one that takes priority first.
pub fn root_fs_candidates(data_dir: &FilePath) -> (candidates: (FilePath, FilePath))
    ensures
        candidates.0@ == image_in(data_dir@, QCOW2_IMAGE@),
        candidates.1@ == image_in(data_dir@, RAW_IMAGE@),
{
    (data_dir.join(QCOW2_IMAGE), data_dir.join(RAW_IMAGE))
}

/// Locate the root filesystem image in the data directory, given which of its
/// two candidates are files: `rootfs.qcow2` takes priority over `rootfs.raw`.
/// `None` means the environment is not initialized.
pub fn find_root_fs(data_dir: &FilePath, has_qcow2: bool, has_raw: bool) -> (found: Option<
    FilePath,
>)
    ensures
        found is Some <==> found_image(data_dir@, has_qcow2, has_raw) is Some,
        found matches Some(path) ==> path@ == found_image(data_dir@, has_qcow2, has_raw)->0,
{
    let (qcow2, raw) = root_fs_candidates(data_dir);
    if has_qcow2 {
        Some(qcow2)
    } else if has_raw {
        Some(raw)
    } else {
        None
    }
}

/// Decide where in the data directory the source root filesystem image is to be
/// cloned to, given whether it exists and which of the candidates are files
/// already. An environment is never overwritten.
pub fn init_env(
    data_dir: &FilePath,
    source: &FilePath,
    source_exists: bool,
    has_qcow2: bool,
    has_raw: bool,
) -> (result: Result<FilePath, Error>)
    ensures
        match init_target(data_dir@, source@, source_exists, has_qcow2, has_raw) {
            Ok(target) => result matches Ok(path) && path@ == target,
            Err(expected) => result matches Err(error) && error@ == expected,
        },
{
    match crate::qemu::ensure_exists(source, "root fs image", source_exists) {
        Ok(()) => {},
        Err(error) => {
            return Err(error);
        },
    }
    match find_root_fs(data_dir, has_qcow2, has_raw) {
        Some(existing) => {
            let mut message = "VM environment already initialized: ".to_string();
            message.append(existing.display().as_str());
            Err(Error::new(ErrorKind::AlreadyExists, message))
        },
        None => if source.has_extension("qcow2") {
            Ok(data_dir.join(QCOW2_IMAGE))
        } else {
            Ok(data_dir.join(RAW_IMAGE))
        },
    }
}

/// What to say when an environment is set up.
pub fn init_message(data_dir: &FilePath, root_fs: &FilePath) -> (message: String)
    ensures
        message@ == "Initialized VM environment in "@ + crate::path::lossy_text(data_dir@)
            + " (root fs: "@ + crate::path::lossy_text(root_fs@) + ")"@,
{
    let mut message = "Initialized VM environment in ".to_string();
    message.append(data_dir.display().as_str());
    message.append(" (root fs: ");
    message.append(root_fs.display().as_str());
    message.append(")");
    message
}

/// The root filesystem image to run: an explicit one wins over the data
/// directory. Without either, what to complain about.
pub fn select_root_fs(
    explicit: Option<FilePath>,
    data_dir: &FilePath,
    has_qcow2: bool,
    has_raw: bool,
) -> (selected: Result<FilePath, String>)
    ensures
        match explicit {
            Some(path) => selected matches Ok(root_fs) && root_fs@ == path@,
            None => match found_image(data_dir@, has_qcow2, has_raw) {
                Some(image) => selected matches Ok(root_fs) && root_fs@ == image,
                None => selected matches Err(complaint) && complaint@
                    == "run: VM environment is not initialized in "@ + crate::path::lossy_text(
                    data_dir@,
                ) + ", run `vmctl init` first"@,
            },
        },
{
    match explicit {
        Some(path) => Ok(path),
        None => match find_root_fs(data_dir, has_qcow2, has_raw) {
            Some(image) => Ok(image),
            None => {
                let mut complaint = "run: VM environment is not initialized in ".to_string();
                complaint.append(data_dir.display().as_str());
                complaint.append(", run `vmctl init` first");
                Err(complaint)
            },
        },
    }
}

/// The serial pty of a session, in its private directory.
pub fn session_serial(private_dir: &FilePath) -> (path: FilePath)
    ensures
        path@ == crate::path::joined(private_dir@, encode_utf8("vm-server"@)),
{
    private_dir.join("vm-server")
}

/// One option for each additional disk, in their order.
pub open spec fn disk_options(disks: Seq<FilePath>) -> Seq<ArgView>
    decreases disks.len(),
{
    if disks.len() == 0 {
        Seq::empty()
    } else {
        disk_options(disks.drop_last()) + words(seq!["--disk"]).push(
            ArgView::Path(disks.last()@),
        )
    }
}

/// What a switch adds to the options, if it is on.
pub open spec fn switch(on: bool, option: &str) -> Seq<ArgView> {
    if on {
        words(seq![option])
    } else {
        Seq::empty()
    }
}

/// What the command adds to the options, if there is one.
pub open spec fn command_options(command: Seq<Seq<char>>) -> Seq<ArgView> {
    if command.len() > 0 {
        words(seq!["--"]) + text_args(command)
    } else {
        Seq::empty()
    }
}

/// The options that every VM process gets.
pub open spec fn required_options(
    root_fs: Seq<u8>,
    serial_path: Seq<u8>,
    vm: CommonVmArgs,
) -> Seq<ArgView> {
    words(seq!["qemu", "--root-fs"]).push(ArgView::Path(root_fs)) + words(seq!["--serial"]).push(
        ArgView::Path(serial_path),
    ) + words(seq!["--memory"]).push(
        ArgView::Text(crate::text::decimal(vm.memory_megs as nat)),
    ) + words(seq!["--cores"]).push(ArgView::Text(crate::text::decimal(vm.cores as nat)))
}

/// The process that boots the VM of a session. It never reads our stdin, which
/// belongs to the shell.
pub open spec fn vm_process(
    vmctl: Seq<u8>,
    root_fs: Seq<u8>,
    serial_path: Seq<u8>,
    vm: CommonVmArgs,
) -> CommandView {
    CommandView {
        program: ArgView::Path(vmctl),
        args: required_options(root_fs, serial_path, vm) + switch(vm.dump_boot_log, "--boot-log")
            + switch(vm.recovery, "--recovery") + switch(vm.emulate, "--emulate") + disk_options(
            vm.additional_disks@,
        ) + command_options(crate::text::texts(vm.command@)),
        stdin: Stdio::Null,
        stdout: Stdio::Inherit,
        stderr: Stdio::Inherit,
    }
}

/// Add a switch, if it is on.
fn push_switch(args: &mut Vec<Arg>, on: bool, option: &str)
    ensures
        args_view(final(args)@) == args_view(old(args)@) + switch(on, option),
{
    if on {
        push_text(args, option);
    }
    assert(args_view(args@) =~= args_view(old(args)@) + switch(on, option));
}

/// Add one option for each additional disk.
fn push_disk_options(args: &mut Vec<Arg>, disks: &Vec<FilePath>)
    ensures
        args_view(final(args)@) == args_view(old(args)@) + disk_options(disks@),
{
    let mut i: usize = 0;
    assert(args_view(args@) + disk_options(disks@.take(0)) =~= args_view(old(args)@));
    while i < disks.len()
        invariant
            i <= disks@.len(),
            args_view(args@) == args_view(old(args)@) + disk_options(disks@.take(i as int)),
        decreases disks@.len() - i,
    {
        push_text(args, "--disk");
        push_path(args, &disks[i]);
        assert(disks@.take(i + 1).drop_last() =~= disks@.take(i as int));
        assert(args_view(args@) =~= args_view(old(args)@) + disk_options(disks@.take(i + 1)));
        i += 1;
    }
    assert(disks@.take(i as int) =~= disks@);
}

/// Add the options that every VM process gets.
fn push_required_options(
    args: &mut Vec<Arg>,
    root_fs: &FilePath,
    serial_path: &FilePath,
    vm: &CommonVmArgs,
)
    ensures
        args_view(final(args)@) == args_view(old(args)@) + required_options(
            root_fs@,
            serial_path@,
            *vm,
        ),
{
    push_words(args, ["qemu", "--root-fs"]);
    push_path(args, root_fs);
    push_text(args, "--serial");
    push_path(args, serial_path);
    push_text(args, "--memory");
    push_text(args, to_decimal(vm.memory_megs as u64).as_str());
    push_text(args, "--cores");
    push_text(args, to_decimal(vm.cores as u64).as_str());
    assert(args_view(args@) =~= args_view(old(args)@) + required_options(
        root_fs@,
        serial_path@,
        *vm,
    ));
}

/// The process that boots the VM of a session: `vmctl` itself, asked to boot
/// the image with the serial pty at the given path.
pub fn vm_process_command(
    vmctl: &FilePath,
    root_fs: &FilePath,
    serial_path: &FilePath,
    vm: &CommonVmArgs,
) -> (command: CommandLine)
    ensures
        command@ == vm_process(vmctl@, root_fs@, serial_path@, *vm),
{
    let mut args: Vec<Arg> = Vec::new();
    push_required_options(&mut args, root_fs, serial_path, vm);
    push_switch(&mut args, vm.dump_boot_log, "--boot-log");
    push_switch(&mut args, vm.recovery, "--recovery");
    push_switch(&mut args, vm.emulate, "--emulate");
    push_disk_options(&mut args, &vm.additional_disks);
    let ghost before = args_view(args@);
    if vm.command.len() > 0 {
        push_text(&mut args, "--");
        push_strings(&mut args, &vm.command);
    }
    assert(args_view(args@) =~= before + command_options(crate::text::texts(vm.command@)));
    assert(args_view(args@) =~= vm_process(vmctl@, root_fs@, serial_path@, *vm).args);
    CommandLine {
        program: Arg::Path(vmctl.clone()),
        args,
        stdin: Stdio::Null,
        stdout: Stdio::Inherit,
        stderr: Stdio::Inherit,
    }
}

/// The process that attaches the local terminal to the serial pty.
pub fn shell_process_command(vmctl: &FilePath, serial_path: &FilePath) -> (command: CommandLine)
    ensures
        command@ == (CommandView {
            program: ArgView::Path(vmctl@),
            args: words(seq!["shell", "--serial"]).push(ArgView::Path(serial_path@)),
            stdin: Stdio::Inherit,
            stdout: Stdio::Inherit,
            stderr: Stdio::Inherit,
        }),
{
    let mut args: Vec<Arg> = Vec::new();
    push_words(&mut args, ["shell", "--serial"]);
    push_path(&mut args, serial_path);
    assert(args_view(args@) =~= words(seq!["shell", "--serial"]).push(
        ArgView::Path(serial_path@),
    ));
    CommandLine {
        program: Arg::Path(vmctl.clone()),
        args,
        stdin: Stdio::Inherit,
        stdout: Stdio::Inherit,
        stderr: Stdio::Inherit,
    }
}

/// What to do while a VM boots.
#[derive(Debug, PartialEq, Eq)]
pub enum Boot {
    /// The serial pty has shown up: attach to it.
    Attach,
    /// Look again in a moment.
    Wait,
    /// The VM failed before exposing the serial pty.
    Failed(Error),
}

/// Decide what to do while a VM boots, given whether its serial pty exists and
/// whether its process has ended.
pub fn boot_step(serial_exists: bool, vm_ended: bool) -> (boot: Boot)
    ensures
        boot is Attach <==> serial_exists,
        boot is Failed <==> !serial_exists && vm_ended,
        boot matches Boot::Failed(error) ==> error@ == crate::launch::vm_failed(),
{
    if serial_exists {
        Boot::Attach
    } else if vm_ended {
        Boot::Failed(vm_failure())
    } else {
        Boot::Wait
    }
}

/// The exit code of a session: that of the shell (which is that of the command
/// that ran in the guest), whatever became of the VM.
pub open spec fn run_code(vm: Option<i32>, shell: Option<i32>) -> u8 {
    crate::status::own_code(shell)
}

/// What to complain about when a VM has ended like this (the code is absent when
/// a signal killed the process): nothing if it succeeded.
pub fn vm_complaint(vm: Option<i32>) -> (complaint: Option<String>)
    ensures
        complaint is Some <==> vm != Some(0i32),
        complaint matches Some(message) ==> message@ == crate::launch::vm_failed().message,
{
    match vm {
        Some(0) => None,
        _ => Some(vm_failure().message),
    }
}

/// What a session comes to.
#[derive(Debug, PartialEq, Eq)]
pub struct SessionOutcome {
    /// The exit code of our own process.
    pub code: u8,
    /// What to complain about, if anything.
    pub complaint: Option<String>,
}

/// What a session comes to, given how its VM and its shell ended (the code is
/// absent when a signal killed the process).
pub fn session_outcome(vm: Option<i32>, shell: Option<i32>) -> (outcome: SessionOutcome)
    ensures
        outcome.code == run_code(vm, shell),
        outcome.complaint is Some <==> vm != Some(0i32),
        outcome.complaint matches Some(message) ==> message@ == crate::launch::vm_failed().message,
{
    SessionOutcome { code: propagate_status(shell), complaint: vm_complaint(vm) }
}

/// How to boot the VM that the arguments ask for, with its network card
/// connected to the given port.
pub fn launch_opts(args: QemuArgs, net_port: u16) -> (opts: VmLaunchOpts)
    ensures
        opts.dump_boot_log == args.vm.dump_boot_log,
        opts.serial_path == args.serial,
        opts.recovery == args.vm.recovery,
        opts.cores == args.vm.cores,
        opts.memory_megs == args.vm.memory_megs,
        opts.root_fs == args.root_fs,
        opts.kernel@ == encode_utf8(DEFAULT_KERNEL@),
        opts.initrd@ == encode_utf8(DEFAULT_INITRD@),
        opts.emulate == args.vm.emulate,
        opts.command == args.vm.command,
        opts.additional_disks == args.vm.additional_disks,
        opts.net_port == net_port,
{
    VmLaunchOpts {
        dump_boot_log: args.vm.dump_boot_log,
        serial_path: args.serial,
        recovery: args.vm.recovery,
        cores: args.vm.cores,
        memory_megs: args.vm.memory_megs,
        root_fs: args.root_fs,
        kernel: FilePath::of_text(DEFAULT_KERNEL),
        initrd: FilePath::of_text(DEFAULT_INITRD),
        emulate: args.vm.emulate,
        command: args.vm.command,
        additional_disks: args.vm.additional_disks,
        net_port,
    }
}

/// An environment that was set up is found, and is not set up a second time:
/// once the image is cloned to where it belongs, it is the image of the data
/// directory, and setting the directory up fails and names it.
pub proof fn law_init_happens_once(data_dir: Seq<u8>, source: Seq<u8>, other: Seq<u8>)
    ensures
        init_target(data_dir, source, true, false, false) matches Ok(target) && ({
            let has_qcow2 = image_name(source) == QCOW2_IMAGE@;
            let has_raw = !has_qcow2;
            &&& found_image(data_dir, has_qcow2, has_raw) == Some(target)
            &&& init_target(data_dir, other, true, has_qcow2, has_raw) matches Err(error)
            &&& error.kind is AlreadyExists
            &&& error.message == "VM environment already initialized: "@
                + crate::path::lossy_text(target)
        }),
{
}

/// The clone of an image has the format of the image.
pub proof fn law_clone_keeps_the_format(data_dir: Seq<u8>, source: Seq<u8>)
    ensures
        crate::qemu::format_of(image_in(data_dir, image_name(source))) == crate::qemu::format_of(
            source,
        ),
{
    let wanted = encode_utf8("qcow2"@);
    let qcow2 = encode_utf8(QCOW2_IMAGE@);
    let raw = encode_utf8(RAW_IMAGE@);
    reveal_strlit("qcow2");
    reveal_strlit("rootfs.qcow2");
    reveal_strlit("rootfs.raw");
    vstd::utf8::is_ascii_chars_encode_utf8("qcow2"@);
    vstd::utf8::is_ascii_chars_encode_utf8(QCOW2_IMAGE@);
    vstd::utf8::is_ascii_chars_encode_utf8(RAW_IMAGE@);
    crate::path::lemma_plain_name(qcow2, 6);
    crate::path::lemma_plain_name(raw, 6);
    crate::path::law_joined_keeps_the_name(data_dir, qcow2);
    crate::path::law_joined_keeps_the_name(data_dir, raw);
    assert(qcow2.skip(7) =~= wanted);
    assert(raw.skip(7).len() != wanted.len());
}

/// The command that ran in the guest decides the exit code of the session,
/// however the VM ended.
pub proof fn law_command_decides_the_exit_code(vm: Option<i32>, code: u8)
    ensures
        run_code(vm, Some(code as i32)) == code,
{
}

/// The options of a VM process whose values depend on the session.
pub open spec fn value_options() -> Seq<Seq<char>> {
    seq!["--root-fs"@, "--serial"@, "--memory"@, "--cores"@]
}

/// The options that every VM process gets say what was asked for.
proof fn lemma_required_values(root_fs: Seq<u8>, serial_path: Seq<u8>, vm: CommonVmArgs)
    ensures
        ({
            let args = required_options(root_fs, serial_path, vm);
            &&& args.len() == 9
            &&& args[0] == ArgView::Text("qemu"@)
            &&& args[1] == ArgView::Text("--root-fs"@)
            &&& args[2] == ArgView::Path(root_fs)
            &&& args[3] == ArgView::Text("--serial"@)
            &&& args[4] == ArgView::Path(serial_path)
            &&& args[5] == ArgView::Text("--memory"@)
            &&& args[6] == ArgView::Text(crate::text::decimal(vm.memory_megs as nat))
            &&& args[7] == ArgView::Text("--cores"@)
            &&& args[8] == ArgView::Text(crate::text::decimal(vm.cores as nat))
        }),
{
}

/// The process that boots the VM of a session is asked for that image, that serial
/// pty, that much memory and that many cores, by `vmctl` itself and off our stdin.
pub proof fn law_vm_process_is_asked_for_the_session(
    vmctl: Seq<u8>,
    root_fs: Seq<u8>,
    serial_path: Seq<u8>,
    vm: CommonVmArgs,
)
    ensures
        ({
            let process = vm_process(vmctl, root_fs, serial_path, vm);
            &&& process.program == ArgView::Path(vmctl)
            &&& process.args.len() > 0 && process.args[0] == ArgView::Text("qemu"@)
            &&& given(process.args, "--root-fs"@, ArgView::Path(root_fs))
            &&& given(process.args, "--serial"@, ArgView::Path(serial_path))
            &&& given_number(process.args, "--memory"@, ""@, vm.memory_megs as nat, ""@)
            &&& given_number(process.args, "--cores"@, ""@, vm.cores as nat, ""@)
            &&& process.stdin is Null
            &&& process.stdout is Inherit
            &&& process.stderr is Inherit
        }),
{
    let args = vm_process(vmctl, root_fs, serial_path, vm).args;
    let memory = crate::text::decimal(vm.memory_megs as nat);
    let cores = crate::text::decimal(vm.cores as nat);
    let required = required_options(root_fs, serial_path, vm);
    let rest = switch(vm.dump_boot_log, "--boot-log") + switch(vm.recovery, "--recovery") + switch(
        vm.emulate,
        "--emulate",
    ) + disk_options(vm.additional_disks@) + command_options(crate::text::texts(vm.command@));
    let none = Seq::<ArgView>::empty();
    lemma_required_values(root_fs, serial_path, vm);
    assert(args =~= none + required + rest);
    reveal_strlit("");
    crate::text::lemma_tells(""@, vm.memory_megs as nat, ""@);
    crate::text::lemma_tells(""@, vm.cores as nat, ""@);
    assert(""@ + memory + ""@ =~= memory);
    assert(""@ + cores + ""@ =~= cores);
    assert(given(required, "--memory"@, ArgView::Text(memory)));
    assert(given(required, "--cores"@, ArgView::Text(cores)));
    lemma_given_in(none, required, rest, "--root-fs"@, ArgView::Path(root_fs));
    lemma_given_in(none, required, rest, "--serial"@, ArgView::Path(serial_path));
    lemma_number_given_in(none, required, rest, "--memory"@, ""@, vm.memory_megs as nat, ""@);
    lemma_number_given_in(none, required, rest, "--cores"@, ""@, vm.cores as nat, ""@);
}

/// Two sessions with the same switches, disks and command differ in the values
/// behind the options that every VM process gets, and in nothing else.
pub proof fn law_vm_processes_differ_in_values_alone(
    vmctl: Seq<u8>,
    root_fs: Seq<u8>,
    serial_path: Seq<u8>,
    vm: CommonVmArgs,
    other_root_fs: Seq<u8>,
    other_serial_path: Seq<u8>,
    other: CommonVmArgs,
)
    requires
        other == (CommonVmArgs { memory_megs: other.memory_megs, cores: other.cores, ..vm }),
    ensures
        differ_behind(
            vm_process(vmctl, root_fs, serial_path, vm).args,
            vm_process(vmctl, other_root_fs, other_serial_path, other).args,
            value_options(),
        ),
{
    let options = value_options();
    assert(options[0] == "--root-fs"@ && options[1] == "--serial"@ && options[2] == "--memory"@
        && options[3] == "--cores"@);
    assert(options.contains("--root-fs"@) && options.contains("--serial"@) && options.contains(
        "--memory"@,
    ) && options.contains("--cores"@));
    let a = required_options(root_fs, serial_path, vm);
    let b = required_options(other_root_fs, other_serial_path, other);
    let rest = switch(vm.dump_boot_log, "--boot-log") + switch(vm.recovery, "--recovery") + switch(
        vm.emulate,
        "--emulate",
    ) + disk_options(vm.additional_disks@) + command_options(crate::text::texts(vm.command@));
    lemma_required_values(root_fs, serial_path, vm);
    lemma_required_values(other_root_fs, other_serial_path, other);
    assert(differ_behind(a, b, options));
    assert(differ_behind(rest, rest, options));
    lemma_differ_joined(a, b, rest, rest, options);
    assert(vm_process(vmctl, root_fs, serial_path, vm).args =~= a + rest);
    assert(vm_process(vmctl, other_root_fs, other_serial_path, other).args =~= b + rest);
}

/// A switch that is on adds its word to the arguments, in its place, and changes
/// nothing else.
pub proof fn law_switches_add_their_words(
    vmctl: Seq<u8>,
    root_fs: Seq<u8>,
    serial_path: Seq<u8>,
    vm: CommonVmArgs,
)
    ensures
        ({
            let args = |boot_log: bool, recovery: bool, emulate: bool|
                vm_process(
                    vmctl,
                    root_fs,
                    serial_path,
                    CommonVmArgs { dump_boot_log: boot_log, recovery, emulate, ..vm },
                ).args;
            let plain = args(false, false, false);
            let with = |words: Seq<ArgView>| plain.take(9) + words + plain.skip(9);
            let log = ArgView::Text("--boot-log"@);
            let recover = ArgView::Text("--recovery"@);
            let emulated = ArgView::Text("--emulate"@);
            &&& args(true, false, false) == with(seq![log])
            &&& args(false, true, false) == with(seq![recover])
            &&& args(false, false, true) == with(seq![emulated])
            &&& args(true, true, false) == with(seq![log, recover])
            &&& args(true, false, true) == with(seq![log, emulated])
            &&& args(false, true, true) == with(seq![recover, emulated])
            &&& args(true, true, true) == with(seq![log, recover, emulated])
        }),
{
    let required = required_options(root_fs, serial_path, vm);
    let rest = disk_options(vm.additional_disks@) + command_options(
        crate::text::texts(vm.command@),
    );
    lemma_required_values(root_fs, serial_path, vm);
    let log = ArgView::Text("--boot-log"@);
    let recover = ArgView::Text("--recovery"@);
    let emulated = ArgView::Text("--emulate"@);
    let none = Seq::<ArgView>::empty();
    lemma_switched(vmctl, root_fs, serial_path, vm, false, false, false, none);
    lemma_switched(vmctl, root_fs, serial_path, vm, true, false, false, seq![log]);
    lemma_switched(vmctl, root_fs, serial_path, vm, false, true, false, seq![recover]);
    lemma_switched(vmctl, root_fs, serial_path, vm, false, false, true, seq![emulated]);
    lemma_switched(vmctl, root_fs, serial_path, vm, true, true, false, seq![log, recover]);
    lemma_switched(vmctl, root_fs, serial_path, vm, true, false, true, seq![log, emulated]);
    lemma_switched(vmctl, root_fs, serial_path, vm, false, true, true, seq![recover, emulated]);
    lemma_switched(
        vmctl,
        root_fs,
        serial_path,
        vm,
        true,
        true,
        true,
        seq![log, recover, emulated],
    );
    let plain = required + none + rest;
    assert(plain.take(9) =~= required);
    assert(plain.skip(9) =~= rest);
}

/// The arguments with some switches on.
proof fn lemma_switched(
    vmctl: Seq<u8>,
    root_fs: Seq<u8>,
    serial_path: Seq<u8>,
    vm: CommonVmArgs,
    boot_log: bool,
    recovery: bool,
    emulate: bool,
    added: Seq<ArgView>,
)
    requires
        added =~= switch(boot_log, "--boot-log") + switch(recovery, "--recovery") + switch(
            emulate,
            "--emulate",
        ),
    ensures
        vm_process(
            vmctl,
            root_fs,
            serial_path,
            CommonVmArgs { dump_boot_log: boot_log, recovery, emulate, ..vm },
        ).args == required_options(root_fs, serial_path, vm) + added + (disk_options(
            vm.additional_disks@,
        ) + command_options(crate::text::texts(vm.command@))),
{
    let switched = CommonVmArgs { dump_boot_log: boot_log, recovery, emulate, ..vm };
    let required = required_options(root_fs, serial_path, vm);
    assert(required_options(root_fs, serial_path, switched) == required);
    assert(vm_process(vmctl, root_fs, serial_path, switched).args =~= required + added + (
    disk_options(vm.additional_disks@) + command_options(crate::text::texts(vm.command@))));
}

/// The disks of a session are handed on one by one, in their order, and its command
/// as it is behind two dashes, last of all.
pub proof fn law_disks_and_command_are_handed_on(
    vmctl: Seq<u8>,
    root_fs: Seq<u8>,
    serial_path: Seq<u8>,
    plain: CommonVmArgs,
    vm: CommonVmArgs,
    disks: Seq<FilePath>,
    disk: FilePath,
)
    requires
        plain == (CommonVmArgs { command: plain.command, ..vm }),
        plain.command@.len() == 0,
    ensures
        ({
            let args = vm_process(vmctl, root_fs, serial_path, vm).args;
            let without = vm_process(vmctl, root_fs, serial_path, plain).args;
            &&& vm.command@.len() == 0 ==> args == without
            &&& vm.command@.len() > 0 ==> args == without.push(ArgView::Text("--"@))
                + crate::text::texts(vm.command@).map_values(|text: Seq<char>| ArgView::Text(text))
            &&& disk_options(vm.additional_disks@).is_suffix_of(without)
        }),
        disk_options(Seq::empty()) == Seq::<ArgView>::empty(),
        disk_options(disks.push(disk)) == disk_options(disks).push(ArgView::Text("--disk"@)).push(
            ArgView::Path(disk@),
        ),
{
    let args = vm_process(vmctl, root_fs, serial_path, vm).args;
    let without = vm_process(vmctl, root_fs, serial_path, plain).args;
    let front = required_options(root_fs, serial_path, vm) + switch(
        vm.dump_boot_log,
        "--boot-log",
    ) + switch(vm.recovery, "--recovery") + switch(vm.emulate, "--emulate");
    let last = disk_options(vm.additional_disks@);
    let texts = crate::text::texts(vm.command@);
    assert(required_options(root_fs, serial_path, plain) == required_options(
        root_fs,
        serial_path,
        vm,
    ));
    assert(without =~= front + last);
    assert(without.subrange(without.len() - last.len(), without.len() as int) =~= last);
    assert(args =~= front + last + command_options(texts));
    if vm.command@.len() > 0 {
        assert(command_options(texts) == words(seq!["--"]) + text_args(texts));
        assert(args =~= without.push(ArgView::Text("--"@)) + texts.map_values(
            |text: Seq<char>| ArgView::Text(text),
        ));
    } else {
        assert(args =~= without);
    }
    assert(disks.push(disk).drop_last() =~= disks);
    assert(disk_options(disks.push(disk)) =~= disk_options(disks).push(
        ArgView::Text("--disk"@),
    ).push(ArgView::Path(disk@)));
}

/// Where the root filesystem image of a data directory is: in it, under the name
/// for its format, and the qcow2 image goes before the raw one.
pub proof fn law_image_lies_in_the_data_directory(data_dir: Seq<u8>, has_raw: bool, source: Seq<u8>)
    ensures
        found_image(data_dir, true, has_raw) == Some(
            crate::path::joined(data_dir, encode_utf8("rootfs.qcow2"@)),
        ),
        found_image(data_dir, false, true) == Some(
            crate::path::joined(data_dir, encode_utf8("rootfs.raw"@)),
        ),
        found_image(data_dir, false, false) is None,
        init_target(data_dir, source, true, false, false) == Ok::<Seq<u8>, ErrorView>(
            crate::path::joined(
                data_dir,
                encode_utf8(
                    if crate::qemu::format_of(source) == "qcow2"@ {
                        "rootfs.qcow2"@
                    } else {
                        "rootfs.raw"@
                    },
                ),
            ),
        ),
{
    reveal_strlit("qcow2");
    reveal_strlit("raw");
    assert("qcow2"@.len() != "raw"@.len());
}

/// A data directory is set up exactly if the source is there and no image is; what
/// stands in the way is reported, the missing source first.
pub proof fn law_init_needs_a_source_and_an_empty_directory(
    data_dir: Seq<u8>,
    source: Seq<u8>,
    source_exists: bool,
    has_qcow2: bool,
    has_raw: bool,
)
    ensures
        ({
            let target = init_target(data_dir, source, source_exists, has_qcow2, has_raw);
            &&& target is Ok <==> source_exists && !has_qcow2 && !has_raw
            &&& !source_exists ==> (target matches Err(error) && error.kind is NotFound
                && error.message == "root fs image"@ + " not found: "@ + crate::path::lossy_text(
                source,
            ))
            &&& source_exists && (has_qcow2 || has_raw) ==> (target matches Err(error)
                && error.kind is AlreadyExists && error.message
                == "VM environment already initialized: "@ + crate::path::lossy_text(
                crate::path::joined(
                    data_dir,
                    encode_utf8(
                        if has_qcow2 {
                            "rootfs.qcow2"@
                        } else {
                            "rootfs.raw"@
                        },
                    ),
                ),
            ))
        }),
{
}

/// The exit code of a session is the shell's, whatever became of the VM: kept
/// where it fits in a byte, the largest byte where it does not, and failure where a
/// signal killed the shell.
pub proof fn law_shell_decides_the_exit_code(vm: Option<i32>, other: Option<i32>, code: i32)
    ensures
        0 <= code <= 255 ==> run_code(vm, Some(code)) == code,
        code < 0 || code > 255 ==> run_code(vm, Some(code)) == 255,
        run_code(vm, None) == 1,
        run_code(vm, Some(code)) == run_code(other, Some(code)),
{
}

} // verus!
