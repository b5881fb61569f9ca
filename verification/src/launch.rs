//! Launching the microVM of the current directory on a copy-on-write overlay
//! over a read-only base image.
use crate::command::{
    args_view, differ_behind, given, lemma_differ_joined, lemma_given_in, push_text, push_words,
    words, Arg, ArgView, CommandLine, CommandView, Stdio,
};
use crate::error::{Error, ErrorKind, ErrorView};
use crate::kernel::format_init_args;
use crate::path::FilePath;
use crate::qemu::push_cpu;
use vstd::prelude::*;

verus! {

/// Copy-on-write overlay over the read-only base image.
pub const OVERLAY: &'static str = "rootfs-overlay.qcow2";

/// Symlink to the pty of a VM; a stale one is removed before a launch.
pub const CONSOLE: &'static str = "./console";

/// How to launch the VM.
#[derive(Debug, PartialEq, Eq)]
pub struct VmLaunchOpts {
    /// If true stdout/stderr of VM process will be linked to current
    /// terminal, so that boot logs will be visible.
    ///
    /// This only should be used for diagnostic, because it might break terminal working in VM
    pub dump_boot_log: bool,
    /// Path to a tty that will be linked to a serial device in a VM which is used for
    /// communicating with VM-server
    pub serial_path: FilePath,
    /// Start init in recovery mode
    pub recovery: bool,
    /// If true, emulating mode is used, otherwise platform hypervisor is used
    pub emulate: bool,
    /// Command to run in the VM instead of the default login shell.
    ///
    /// Passed to the guest init through the kernel command line (everything
    /// after `--` is handed to init as its arguments). Ignored in recovery mode.
    pub command: Vec<String>,
}

/// The command that creates the overlay disk.
pub open spec fn create_overlay() -> CommandView {
    CommandView {
        program: ArgView::Text("qemu-img"@),
        args: words(
            seq![
                "create",
                "-o",
                "backing_file=../rootfs.qcow2,backing_fmt=qcow2",
                "-f",
                "qcow2",
                OVERLAY,
            ],
        ),
        stdin: Stdio::Inherit,
        stdout: Stdio::Inherit,
        stderr: Stdio::Inherit,
    }
}

/// The kernel command line, or why there is none.
pub open spec fn append_line(recovery: bool, command: Seq<Seq<char>>) -> Result<
    Seq<char>,
    ErrorView,
> {
    if recovery {
        Ok("console=hvc0 reboot=t panic=-1 init_recovery rdinit=/init"@)
    } else {
        let line = "console=hvc0 reboot=t panic=-1  rdinit=/init"@;
        match crate::kernel::init_args(command) {
            Ok(Some(init_args)) => Ok(line + " -- "@ + init_args),
            Ok(None) => Ok(line),
            Err(error) => Err(error),
        }
    }
}

/// The machine, its console on stdio, and its data port exposed as a pty.
pub open spec fn machine_args(serial_path: Seq<u8>) -> Seq<ArgView> {
    words(
        seq![
            "-nodefaults",
            "-no-user-config",
            "-nographic",
            "-no-reboot",
            "-M",
            "virt",
            "-smp",
            "cpus=1,sockets=1,cores=1,threads=1",
            "-m",
            "1G",
            "-device",
            "virtio-serial-device",
            "-chardev",
            "stdio,signal=off,id=console-hvc0",
            "-device",
            "virtconsole,chardev=console-hvc0",
            "-chardev",
        ],
    ).push(
        ArgView::Text(
            "pty,signal=off,path="@ + crate::path::lossy_text(serial_path) + ",id=console-hvc1"@,
        ),
    ) + words(seq!["-device", "virtserialport,chardev=console-hvc1"])
}

/// The root disk, the network, the clock, the random number generator, and the
/// share of the current directory.
pub open spec fn device_args(cwd: Seq<u8>) -> Seq<ArgView> {
    words(seq!["-drive"]).push(
        ArgView::Text("id=root,file="@ + OVERLAY@ + ",format=qcow2,if=none"@),
    ) + words(
        seq![
            "-device",
            "virtio-blk-device,drive=root",
            "-device",
            "virtio-net-device,netdev=net1",
            "-netdev",
            "user,id=net1",
            "-rtc",
            "base=utc,clock=host",
            "-device",
            "virtio-rng-pci",
            "-virtfs",
        ],
    ).push(
        ArgView::Text(
            "local,path="@ + crate::path::lossy_text(cwd)
                + ",mount_tag=qemu,security_model=mapped"@,
        ),
    )
}

/// What to boot.
pub open spec fn boot_args(line: Seq<char>) -> Seq<ArgView> {
    words(seq!["-kernel", "../Image", "-initrd", "../initrd.gz", "-append"]).push(
        ArgView::Text(line),
    )
}

/// QEMU as it is run for `opts` in the directory `cwd`, with the given kernel
/// command line.
pub open spec fn qemu_command(opts: VmLaunchOpts, cwd: Seq<u8>, line: Seq<char>) -> CommandView {
    let output = if opts.dump_boot_log {
        Stdio::Inherit
    } else {
        Stdio::Piped
    };
    CommandView {
        program: ArgView::Text("qemu-system-aarch64"@),
        args: crate::qemu::cpu_args(opts.emulate) + machine_args(opts.serial_path@) + device_args(
            cwd,
        ) + boot_args(line),
        stdin: Stdio::Piped,
        stdout: output,
        stderr: output,
    }
}

/// The command that creates the overlay disk, if it is not there yet.
pub fn overlay_command(exists: bool) -> (command: Option<CommandLine>)
    ensures
        command is None <==> exists,
        command matches Some(command) ==> command@ == create_overlay(),
{
    if exists {
        return None;
    }
    let mut args: Vec<Arg> = Vec::new();
    push_words(
        &mut args,
        [
            "create",
            "-o",
            "backing_file=../rootfs.qcow2,backing_fmt=qcow2",
            "-f",
            "qcow2",
            OVERLAY,
        ],
    );
    assert(args_view(args@) =~= create_overlay().args);
    Some(
        CommandLine {
            program: Arg::Text("qemu-img".to_string()),
            args,
            stdin: Stdio::Inherit,
            stdout: Stdio::Inherit,
            stderr: Stdio::Inherit,
        },
    )
}

/// Judge how creating the overlay disk ended; `status` describes it.
pub fn overlay_result(success: bool, status: &str) -> (result: Result<(), Error>)
    ensures
        result is Ok <==> success,
        result matches Err(error) ==> error@ == (ErrorView {
            kind: ErrorKind::Other,
            message: "qemu-img create failed: "@ + status@,
        }),
{
    if success {
        Ok(())
    } else {
        let mut message = "qemu-img create failed: ".to_string();
        message.append(status);
        Err(Error::new(ErrorKind::Other, message))
    }
}

/// The kernel command line for `opts`.
fn format_append_line(opts: &VmLaunchOpts) -> (result: Result<String, Error>)
    ensures
        match append_line(opts.recovery, crate::text::texts(opts.command@)) {
            Ok(expected) => result matches Ok(line) && line@ == expected,
            Err(expected) => result matches Err(error) && error@ == expected,
        },
{
    if opts.recovery {
        return Ok("console=hvc0 reboot=t panic=-1 init_recovery rdinit=/init".to_string());
    }
    let mut line = "console=hvc0 reboot=t panic=-1  rdinit=/init".to_string();
    match format_init_args(&opts.command) {
        Ok(Some(init_args)) => {
            line.append(" -- ");
            line.append(init_args.as_str());
            Ok(line)
        },
        Ok(None) => Ok(line),
        Err(error) => Err(error),
    }
}

/// Add the machine.
fn push_machine(args: &mut Vec<Arg>, serial_path: &FilePath)
    ensures
        args_view(final(args)@) == args_view(old(args)@) + machine_args(serial_path@),
{
    let mut pty = "pty,signal=off,path=".to_string();
    pty.append(serial_path.display().as_str());
    pty.append(",id=console-hvc1");
    push_words(
        args,
        [
            "-nodefaults",
            "-no-user-config",
            "-nographic",
            "-no-reboot",
            "-M",
            "virt",
            "-smp",
            "cpus=1,sockets=1,cores=1,threads=1",
            "-m",
            "1G",
            "-device",
            "virtio-serial-device",
            "-chardev",
            "stdio,signal=off,id=console-hvc0",
            "-device",
            "virtconsole,chardev=console-hvc0",
            "-chardev",
        ],
    );
    push_text(args, pty.as_str());
    push_words(args, ["-device", "virtserialport,chardev=console-hvc1"]);
    assert(args_view(args@) =~= args_view(old(args)@) + machine_args(serial_path@));
}

/// Add the devices.
fn push_devices(args: &mut Vec<Arg>, cwd: &FilePath)
    ensures
        args_view(final(args)@) == args_view(old(args)@) + device_args(cwd@),
{
    let mut drive = "id=root,file=".to_string();
    drive.append(OVERLAY);
    drive.append(",format=qcow2,if=none");
    let mut share = "local,path=".to_string();
    share.append(cwd.display().as_str());
    share.append(",mount_tag=qemu,security_model=mapped");
    push_words(args, ["-drive"]);
    push_text(args, drive.as_str());
    push_words(
        args,
        [
            "-device",
            "virtio-blk-device,drive=root",
            "-device",
            "virtio-net-device,netdev=net1",
            "-netdev",
            "user,id=net1",
            "-rtc",
            "base=utc,clock=host",
            "-device",
            "virtio-rng-pci",
            "-virtfs",
        ],
    );
    push_text(args, share.as_str());
    assert(args_view(args@) =~= args_view(old(args)@) + device_args(cwd@));
}

/// The command that launches the microVM under QEMU (aarch64, virtio-serial
/// console + data port, virtio-blk root, user-mode net, RNG, a 9p share of the
/// current directory, kernel + initrd), or why there is none.
///
/// Paths are relative to the current working directory.
pub fn launch_command(opts: &VmLaunchOpts, cwd: &FilePath) -> (result: Result<CommandLine, Error>)
    ensures
        match append_line(opts.recovery, crate::text::texts(opts.command@)) {
            Ok(line) => result matches Ok(command) && command@ == qemu_command(*opts, cwd@, line),
            Err(expected) => result matches Err(error) && error@ == expected,
        },
{
    let line = match format_append_line(opts) {
        Ok(line) => line,
        Err(error) => {
            return Err(error);
        },
    };
    let mut args: Vec<Arg> = Vec::new();
    push_cpu(&mut args, opts.emulate);
    push_machine(&mut args, &opts.serial_path);
    push_devices(&mut args, cwd);
    push_words(&mut args, ["-kernel", "../Image", "-initrd", "../initrd.gz", "-append"]);
    push_text(&mut args, line.as_str());
    assert(args_view(args@) =~= qemu_command(*opts, cwd@, line@).args);
    let output = if opts.dump_boot_log {
        Stdio::Inherit
    } else {
        Stdio::Piped
    };
    Ok(
        CommandLine {
            program: Arg::Text("qemu-system-aarch64".to_string()),
            args,
            stdin: Stdio::Piped,
            stdout: output,
            stderr: output,
        },
    )
}

/// Judge how the VM ended.
pub fn launch_result(success: bool) -> (result: Result<(), Error>)
    ensures
        result is Ok <==> success,
        result matches Err(error) ==> error@ == vm_failed(),
{
    if success {
        Ok(())
    } else {
        Err(vm_failure())
    }
}

/// The error for a VM that failed.
pub open spec fn vm_failed() -> ErrorView {
    ErrorView {
        kind: ErrorKind::Other,
        message: "VM failed, use --boot-log to inspect details"@,
    }
}

/// The error for a VM that failed.
pub(crate) fn vm_failure() -> (error: Error)
    ensures
        error@ == vm_failed(),
{
    Error::new(ErrorKind::Other, "VM failed, use --boot-log to inspect details".to_string())
}

/// In recovery mode the command is ignored: whatever it is, even one that
/// could not be passed on, the VM is launched all the same.
pub proof fn law_recovery_ignores_the_command(
    command: Seq<Seq<char>>,
    other: Seq<Seq<char>>,
)
    ensures
        append_line(true, command) is Ok,
        append_line(true, command) == append_line(true, other),
{
}

/// The options of QEMU whose values depend on how the VM is to be launched.
pub open spec fn value_options() -> Seq<Seq<char>> {
    seq!["-chardev"@, "-virtfs"@, "-append"@]
}

/// The VM is launched as asked for: its data port exposed at that path, that
/// directory shared, and that kernel command line.
pub proof fn law_vm_is_launched_as_asked(opts: VmLaunchOpts, cwd: Seq<u8>, line: Seq<char>)
    ensures
        ({
            let command = qemu_command(opts, cwd, line);
            &&& given(
                command.args,
                "-chardev"@,
                ArgView::Text(
                    "pty,signal=off,path="@ + crate::path::lossy_text(opts.serial_path@)
                        + ",id=console-hvc1"@,
                ),
            )
            &&& given(
                command.args,
                "-virtfs"@,
                ArgView::Text(
                    "local,path="@ + crate::path::lossy_text(cwd)
                        + ",mount_tag=qemu,security_model=mapped"@,
                ),
            )
            &&& given(command.args, "-append"@, ArgView::Text(line))
            &&& command.program == ArgView::Text("qemu-system-aarch64"@)
            &&& command.stdin is Piped
            &&& command.stdout == command.stderr
            &&& command.stdout == (if opts.dump_boot_log {
                Stdio::Inherit
            } else {
                Stdio::Piped
            })
        }),
{
    let none = Seq::<ArgView>::empty();
    let cpu = crate::qemu::cpu_args(opts.emulate);
    let machine = machine_args(opts.serial_path@);
    let devices = device_args(cwd);
    let boot = boot_args(line);
    let pty = "pty,signal=off,path="@ + crate::path::lossy_text(opts.serial_path@)
        + ",id=console-hvc1"@;
    let share = "local,path="@ + crate::path::lossy_text(cwd)
        + ",mount_tag=qemu,security_model=mapped"@;
    let args = qemu_command(opts, cwd, line).args;
    assert(machine[16] == ArgView::Text("-chardev"@));
    assert(machine[17] == ArgView::Text(pty));
    assert(devices[12] == ArgView::Text("-virtfs"@));
    assert(devices[13] == ArgView::Text(share));
    assert(boot[4] == ArgView::Text("-append"@));
    assert(boot[5] == ArgView::Text(line));
    lemma_given_in(cpu, machine, devices + boot, "-chardev"@, ArgView::Text(pty));
    assert(args =~= cpu + machine + (devices + boot));
    lemma_given_in(cpu + machine, devices, boot, "-virtfs"@, ArgView::Text(share));
    lemma_given_in(cpu + machine + devices, boot, none, "-append"@, ArgView::Text(line));
    assert(args =~= cpu + machine + devices + boot + none);
}

/// Two VMs, both emulated or both not, are launched by the same command but for the
/// values behind the options that say what was asked for.
pub proof fn law_launches_differ_in_values_alone(
    a: VmLaunchOpts,
    b: VmLaunchOpts,
    cwd_a: Seq<u8>,
    cwd_b: Seq<u8>,
    line_a: Seq<char>,
    line_b: Seq<char>,
)
    requires
        a.emulate == b.emulate,
    ensures
        differ_behind(
            qemu_command(a, cwd_a, line_a).args,
            qemu_command(b, cwd_b, line_b).args,
            value_options(),
        ),
{
    let options = value_options();
    assert(options[0] == "-chardev"@ && options[1] == "-virtfs"@ && options[2] == "-append"@);
    assert(options.contains("-chardev"@) && options.contains("-virtfs"@) && options.contains(
        "-append"@,
    ));
    let cpu = crate::qemu::cpu_args(a.emulate);
    let machine_a = machine_args(a.serial_path@);
    let machine_b = machine_args(b.serial_path@);
    let devices_a = device_args(cwd_a);
    let devices_b = device_args(cwd_b);
    let boot_a = boot_args(line_a);
    let boot_b = boot_args(line_b);
    assert(machine_a[16] == ArgView::Text("-chardev"@) && machine_b[16] == machine_a[16]);
    assert(devices_a[12] == ArgView::Text("-virtfs"@) && devices_b[12] == devices_a[12]);
    assert(boot_a[4] == ArgView::Text("-append"@) && boot_b[4] == boot_a[4]);
    assert(differ_behind(machine_a, machine_b, options));
    assert(differ_behind(devices_a, devices_b, options));
    assert(differ_behind(boot_a, boot_b, options));
    assert(differ_behind(cpu, cpu, options));
    lemma_differ_joined(cpu, cpu, machine_a, machine_b, options);
    lemma_differ_joined(cpu + machine_a, cpu + machine_b, devices_a, devices_b, options);
    lemma_differ_joined(
        cpu + machine_a + devices_a,
        cpu + machine_b + devices_b,
        boot_a,
        boot_b,
        options,
    );
}

/// Outside recovery mode the kernel gets the command: behind the fixed part and two
/// dashes stands its line, which the kernel splits into the very arguments (none of
/// which is empty); without a command there is the fixed part alone. What cannot be
/// passed on is refused as it is refused everywhere.
pub proof fn law_launched_kernel_gets_the_command(command: Seq<Seq<char>>)
    ensures
        ({
            let fixed = "console=hvc0 reboot=t panic=-1  rdinit=/init"@;
            &&& command.len() == 0 ==> append_line(false, command) == Ok::<Seq<char>, ErrorView>(
                fixed,
            )
            &&& command.len() > 0 && (forall|i: int|
                0 <= i < command.len() ==> !(#[trigger] command[i]).contains('"')) ==> (append_line(
                false,
                command,
            ) matches Ok(line) && exists|rest: Seq<char>| #[trigger]
                (fixed + " -- "@ + rest) == line && ((forall|i: int|
                    0 <= i < command.len() ==> (#[trigger] command[i]).len() > 0)
                    ==> crate::kernel::split_line(rest, false, Seq::empty()) == command))
            &&& crate::kernel::init_args(command) matches Err(error) ==> append_line(false, command)
                == Err::<Seq<char>, ErrorView>(error)
        }),
{
    crate::kernel::law_every_command_has_a_line(command);
    if command.len() > 0 && (forall|i: int|
        0 <= i < command.len() ==> !(#[trigger] command[i]).contains('"')) {
        let fixed = "console=hvc0 reboot=t panic=-1  rdinit=/init"@;
        let rest = crate::kernel::init_args(command)->Ok_0->0;
        assert(append_line(false, command)->Ok_0 == fixed + " -- "@ + rest);
    }
}

} // verus!
