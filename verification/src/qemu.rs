//! Booting a microVM under QEMU, with gvproxy behind its network card.
use crate::command::{
    args_view, differ_behind, given, given_number, lemma_differ_joined, lemma_given_in,
    lemma_number_given_in, push_path, push_text, push_words, words, Arg, ArgView, CommandLine,
    CommandView, Stdio,
};
use crate::error::{Error, ErrorKind, ErrorView};
use crate::kernel::format_init_args;
use crate::path::FilePath;
use crate::text::{contains_text, to_decimal};
use vstd::prelude::*;

verus! {

/// Default Linux kernel image path.
pub const DEFAULT_KERNEL: &'static str = "./linux/arch/arm64/boot/Image";

/// Default initrd image path.
pub const DEFAULT_INITRD: &'static str = "./target/initrd.gz";

/// How to boot a VM.
#[derive(Debug, PartialEq, Eq)]
pub struct VmLaunchOpts {
    /// If true stdout/stderr of VM process will be linked to current
    /// terminal, so that boot logs will be visible.
    ///
    /// This only should be used for diagnostic, because it might break terminal working in VM
    pub dump_boot_log: bool,
    /// Path to a tty that will be linked to a serial device in a VM which is used for
    /// communicating with VM-server
    pub serial_path: FilePath,
    /// Start init in recovery mode
    pub recovery: bool,
    /// Number of cores
    pub cores: u16,
    /// The amount of memory in a VM in MB
    pub memory_megs: u32,
    /// Root filesystem disk image attached as the first virtio-blk device
    /// (`/dev/vda`).
    ///
    /// The disk is booted read-write, the caller is responsible for preparing
    /// it. Format is inferred from the file extension: `.qcow2` — qcow2,
    /// anything else — raw.
    pub root_fs: FilePath,
    /// Linux kernel image booted in the VM
    pub kernel: FilePath,
    /// Initrd image handed to the kernel
    pub initrd: FilePath,
    /// If true, emulating mode is used, otherwise platform hypervisor is used
    pub emulate: bool,
    /// Command to run in the VM instead of the default login shell.
    ///
    /// Passed to the guest init through the kernel command line (everything
    /// after `--` is handed to init as its arguments).
    pub command: Vec<String>,
    /// Additional disk images attached to the VM as virtio-blk devices.
    ///
    /// Disks appear in the guest after the root disk in the given order
    /// (`/dev/vdb`, `/dev/vdc`, ...). Format is inferred from the file
    /// extension: `.qcow2` — qcow2, anything else — raw.
    pub additional_disks: Vec<FilePath>,
    /// Localhost TCP port the guest NIC backend connects to. A gvproxy
    /// instance must already be listening on it.
    pub net_port: u16,
}

/// Which of the files that a VM needs are there.
#[derive(Debug, PartialEq, Eq)]
pub struct Presence {
    /// Additional disk images, in their order; one without an entry is not
    /// there.
    pub disks: Vec<bool>,
    /// Root filesystem image.
    pub root_fs: bool,
    /// Kernel image.
    pub kernel: bool,
    /// Initrd image.
    pub initrd: bool,
}

/// The format of a disk image, inferred from its extension.
pub open spec fn format_of(path: Seq<u8>) -> Seq<char> {
    if crate::path::has_extension(path, vstd::utf8::encode_utf8("qcow2"@)) {
        "qcow2"@
    } else {
        "raw"@
    }
}

/// The error for a file that is not there.
pub open spec fn not_found(path: Seq<u8>, what: Seq<char>) -> ErrorView {
    ErrorView {
        kind: ErrorKind::NotFound,
        message: what + " not found: "@ + crate::path::lossy_text(path),
    }
}

/// The first of the additional disks that is not there.
pub open spec fn first_missing(disks: Seq<FilePath>, found: Seq<bool>) -> Option<Seq<u8>>
    decreases disks.len(),
{
    if disks.len() == 0 {
        None
    } else if found.len() == 0 || !found[0] {
        Some(disks[0]@)
    } else {
        first_missing(disks.drop_first(), found.drop_first())
    }
}

/// The kernel command line.
pub open spec fn kernel_line(recovery: bool, init_args: Option<Seq<char>>) -> Seq<char> {
    "console=hvc0 reboot=t panic=-1 rdinit=/init"@ + (if recovery {
        " init_recovery=1"@
    } else {
        Seq::empty()
    }) + (match init_args {
        Some(line) => " -- "@ + line,
        None => Seq::empty(),
    })
}

/// The processor: emulated, or the host's own.
pub open spec fn cpu_args(emulate: bool) -> Seq<ArgView> {
    if emulate {
        words(seq!["-cpu", "cortex-a76"])
    } else {
        words(seq!["-accel", "hvf", "-cpu", "host"])
    }
}

/// General settings, number of cores and size of the memory.
pub open spec fn machine_args(cores: u16, memory_megs: u32) -> Seq<ArgView> {
    words(seq!["-nodefaults", "-no-user-config", "-nographic", "-no-reboot"]) + words(
        seq!["-M", "virt", "-smp"],
    ).push(
        ArgView::Text(
            "cpus=1,sockets=1,cores="@ + crate::text::decimal(cores as nat) + ",threads=1"@,
        ),
    ) + words(seq!["-m"]).push(
        ArgView::Text(crate::text::decimal(memory_megs as nat) + "M"@),
    )
}

/// One disk drive, named `id`.
pub open spec fn drive_args(id: Seq<char>, path: Seq<u8>) -> Seq<ArgView> {
    words(seq!["-drive"]).push(
        ArgView::Text(
            "id="@ + id + ",file="@ + crate::path::lossy_text(path) + ",format="@ + format_of(path)
                + ",if=none"@,
        ),
    ) + words(seq!["-device"]).push(ArgView::Text("virtio-blk-device,drive="@ + id))
}

/// The name of the additional disk `index`.
pub open spec fn disk_id(index: nat) -> Seq<char> {
    "disk"@ + crate::text::decimal(index)
}

/// The additional disk drives, the last one first: the guest counts its devices
/// from the end.
pub open spec fn disk_args(disks: Seq<FilePath>) -> Seq<ArgView>
    decreases disks.len(),
{
    if disks.len() == 0 {
        Seq::empty()
    } else {
        drive_args(disk_id((disks.len() - 1) as nat), disks.last()@) + disk_args(disks.drop_last())
    }
}

/// All the disk drives, the root disk behind the additional ones.
pub open spec fn all_drives(disks: Seq<FilePath>, root_fs: Seq<u8>) -> Seq<ArgView> {
    disk_args(disks) + drive_args("root"@, root_fs)
}

/// The arguments of the drive that the guest takes for its disk number `number`
/// (`/dev/vda` is number 0, `/dev/vdb` number 1, and so on), out of the arguments
/// of all drives: it counts them from the end.
pub open spec fn guest_disk(drives: Seq<ArgView>, number: int) -> Seq<ArgView> {
    drives.subrange(drives.len() - 4 * number - 4, drives.len() - 4 * number)
}

/// The network card, connected to the given port.
pub open spec fn network_args(net_port: u16) -> Seq<ArgView> {
    words(seq!["-device", "virtio-net-device,netdev=net1", "-netdev"]).push(
        ArgView::Text(
            "socket,id=net1,connect=127.0.0.1:"@ + crate::text::decimal(net_port as nat),
        ),
    )
}

/// The console on stdio, and behind it the data port exposed as a pty. The
/// guest tells the ports apart by their order.
pub open spec fn serial_args(serial_path: Seq<u8>) -> Seq<ArgView> {
    words(
        seq![
            "-device",
            "virtio-serial-device",
            "-chardev",
            "stdio,signal=off,id=console-hvc0",
            "-device",
            "virtconsole,chardev=console-hvc0",
            "-chardev",
        ],
    ).push(
        ArgView::Text(
            "pty,signal=off,path="@ + crate::path::lossy_text(serial_path) + ",id=host-pty"@,
        ),
    ) + words(seq!["-device", "virtserialport,chardev=host-pty"])
}

/// The clock, the random number generator, and what to boot.
pub open spec fn boot_args(kernel: Seq<u8>, initrd: Seq<u8>, line: Seq<char>) -> Seq<ArgView> {
    words(
        seq!["-rtc", "base=utc,clock=host", "-device", "virtio-rng-pci", "-kernel"],
    ).push(ArgView::Path(kernel)) + words(seq!["-initrd"]).push(ArgView::Path(initrd)) + words(
        seq!["-append"],
    ).push(ArgView::Text(line))
}

/// All the arguments of QEMU. The serial devices come behind every other
/// device that counts.
pub open spec fn vm_args(opts: VmLaunchOpts, line: Seq<char>) -> Seq<ArgView> {
    cpu_args(opts.emulate) + machine_args(opts.cores, opts.memory_megs) + all_drives(
        opts.additional_disks@,
        opts.root_fs@,
    ) + network_args(opts.net_port) + serial_args(
        opts.serial_path@,
    ) + boot_args(opts.kernel@, opts.initrd@, line)
}

/// QEMU as it is run for `opts`, with the given kernel command line.
pub open spec fn qemu_command(opts: VmLaunchOpts, line: Seq<char>) -> CommandView {
    let output = if opts.dump_boot_log {
        Stdio::Inherit
    } else {
        Stdio::Null
    };
    CommandView {
        program: ArgView::Text("qemu-system-aarch64"@),
        args: vm_args(opts, line),
        stdin: Stdio::Null,
        stdout: output,
        stderr: output,
    }
}

/// The command that boots a VM, or why there is none: a command that cannot be
/// passed on, or the first file that is missing.
pub open spec fn boot_command(opts: VmLaunchOpts, found: Presence) -> Result<
    CommandView,
    ErrorView,
> {
    match crate::kernel::init_args(crate::text::texts(opts.command@)) {
        Err(error) => Err(error),
        Ok(init_args) => match first_missing(opts.additional_disks@, found.disks@) {
            Some(disk) => Err(not_found(disk, "disk image"@)),
            None => if !found.root_fs {
                Err(not_found(opts.root_fs@, "root fs image"@))
            } else if !found.kernel {
                Err(not_found(opts.kernel@, "kernel image"@))
            } else if !found.initrd {
                Err(not_found(opts.initrd@, "initrd image"@))
            } else {
                Ok(qemu_command(opts, kernel_line(opts.recovery, init_args)))
            },
        },
    }
}

/// The format of a disk image, inferred from its extension: `.qcow2` — qcow2,
/// anything else — raw.
pub fn disk_format(path: &FilePath) -> (format: &'static str)
    ensures
        format@ == format_of(path@),
{
    if path.has_extension("qcow2") {
        "qcow2"
    } else {
        "raw"
    }
}

/// [`ErrorKind::NotFound`] with a readable message unless `path` exists.
pub fn ensure_exists(path: &FilePath, what: &str, exists: bool) -> (result: Result<(), Error>)
    ensures
        result is Ok <==> exists,
        result matches Err(error) ==> error@ == not_found(path@, what@),
{
    if exists {
        Ok(())
    } else {
        let mut message = what.to_string();
        message.append(" not found: ");
        message.append(path.display().as_str());
        Err(Error::new(ErrorKind::NotFound, message))
    }
}

/// Add the processor.
pub(crate) fn push_cpu(args: &mut Vec<Arg>, emulate: bool)
    ensures
        args_view(final(args)@) == args_view(old(args)@) + cpu_args(emulate),
{
    if emulate {
        push_words(args, ["-cpu", "cortex-a76"]);
    } else {
        push_words(args, ["-accel", "hvf", "-cpu", "host"]);
    }
    assert(args_view(args@) =~= args_view(old(args)@) + cpu_args(emulate));
}

/// Add general settings, the number of cores and the size of the memory.
fn push_machine(args: &mut Vec<Arg>, cores: u16, memory_megs: u32)
    ensures
        args_view(final(args)@) == args_view(old(args)@) + machine_args(cores, memory_megs),
{
    let mut topology = "cpus=1,sockets=1,cores=".to_string();
    topology.append(to_decimal(cores as u64).as_str());
    topology.append(",threads=1");
    let mut memory = to_decimal(memory_megs as u64);
    memory.append("M");
    push_words(args, ["-nodefaults", "-no-user-config", "-nographic", "-no-reboot"]);
    push_words(args, ["-M", "virt", "-smp"]);
    push_text(args, topology.as_str());
    push_words(args, ["-m"]);
    push_text(args, memory.as_str());
    assert(args_view(args@) =~= args_view(old(args)@) + machine_args(cores, memory_megs));
}

/// Add a disk drive named `id`.
fn push_drive(args: &mut Vec<Arg>, id: &str, path: &FilePath)
    ensures
        args_view(final(args)@) == args_view(old(args)@) + drive_args(id@, path@),
{
    let mut drive = "id=".to_string();
    drive.append(id);
    drive.append(",file=");
    drive.append(path.display().as_str());
    drive.append(",format=");
    drive.append(disk_format(path));
    drive.append(",if=none");
    let mut device = "virtio-blk-device,drive=".to_string();
    device.append(id);
    push_words(args, ["-drive"]);
    push_text(args, drive.as_str());
    push_words(args, ["-device"]);
    push_text(args, device.as_str());
    assert(args_view(args@) =~= args_view(old(args)@) + drive_args(id@, path@));
}

/// Check that every additional disk is there.
fn ensure_disks_exist(disks: &Vec<FilePath>, found: &Vec<bool>) -> (result: Result<(), Error>)
    ensures
        match first_missing(disks@, found@) {
            Some(disk) => result matches Err(error) && error@ == not_found(disk, "disk image"@),
            None => result is Ok,
        },
{
    let mut i: usize = 0;
    assert(disks@.skip(0) =~= disks@);
    assert(found@.skip(0) =~= found@);
    while i < disks.len()
        invariant
            i <= disks@.len(),
            i <= found@.len(),
            first_missing(disks@, found@) == first_missing(
                disks@.skip(i as int),
                found@.skip(i as int),
            ),
        decreases disks@.len() - i,
    {
        let exists = i < found.len() && found[i];
        match ensure_exists(&disks[i], "disk image", exists) {
            Ok(()) => {},
            Err(error) => {
                return Err(error);
            },
        }
        assert(disks@.skip(i as int).drop_first() =~= disks@.skip(i + 1));
        assert(found@.skip(i as int).drop_first() =~= found@.skip(i + 1));
        i += 1;
    }
    Ok(())
}

/// Add the additional disk drives, the last one first.
fn push_disks(args: &mut Vec<Arg>, disks: &Vec<FilePath>)
    ensures
        args_view(final(args)@) == args_view(old(args)@) + disk_args(disks@),
{
    let mut left: usize = disks.len();
    assert(disks@.take(left as int) =~= disks@);
    while left > 0
        invariant
            left <= disks@.len(),
            args_view(args@) + disk_args(disks@.take(left as int)) == args_view(old(args)@)
                + disk_args(disks@),
        decreases left,
    {
        let ghost before = args_view(args@);
        let ghost kept = disks@.take(left as int);
        let i: usize = left - 1;
        let mut id = "disk".to_string();
        id.append(to_decimal(i as u64).as_str());
        push_drive(args, id.as_str(), &disks[i]);
        assert(kept.drop_last() =~= disks@.take(i as int));
        assert(before + (drive_args(id@, disks@[i as int]@) + disk_args(kept.drop_last()))
            =~= args_view(args@) + disk_args(disks@.take(i as int)));
        left = i;
    }
    assert(args_view(args@) + Seq::<ArgView>::empty() =~= args_view(args@));
}

/// Add the network card.
fn push_network(args: &mut Vec<Arg>, net_port: u16)
    ensures
        args_view(final(args)@) == args_view(old(args)@) + network_args(net_port),
{
    let mut socket = "socket,id=net1,connect=127.0.0.1:".to_string();
    socket.append(to_decimal(net_port as u64).as_str());
    push_words(args, ["-device", "virtio-net-device,netdev=net1", "-netdev"]);
    push_text(args, socket.as_str());
    assert(args_view(args@) =~= args_view(old(args)@) + network_args(net_port));
}

/// Add the serial devices.
fn push_serial(args: &mut Vec<Arg>, serial_path: &FilePath)
    ensures
        args_view(final(args)@) == args_view(old(args)@) + serial_args(serial_path@),
{
    let mut pty = "pty,signal=off,path=".to_string();
    pty.append(serial_path.display().as_str());
    pty.append(",id=host-pty");
    push_words(
        args,
        [
            "-device",
            "virtio-serial-device",
            "-chardev",
            "stdio,signal=off,id=console-hvc0",
            "-device",
            "virtconsole,chardev=console-hvc0",
            "-chardev",
        ],
    );
    push_text(args, pty.as_str());
    push_words(args, ["-device", "virtserialport,chardev=host-pty"]);
    assert(args_view(args@) =~= args_view(old(args)@) + serial_args(serial_path@));
}

/// Add the clock, the random number generator, and what to boot.
fn push_boot(args: &mut Vec<Arg>, kernel: &FilePath, initrd: &FilePath, line: &str)
    ensures
        args_view(final(args)@) == args_view(old(args)@) + boot_args(kernel@, initrd@, line@),
{
    push_words(
        args,
        ["-rtc", "base=utc,clock=host", "-device", "virtio-rng-pci", "-kernel"],
    );
    push_path(args, kernel);
    push_words(args, ["-initrd"]);
    push_path(args, initrd);
    push_words(args, ["-append"]);
    push_text(args, line);
    assert(args_view(args@) =~= args_view(old(args)@) + boot_args(kernel@, initrd@, line@));
}

/// The kernel command line for `opts`.
fn format_kernel_line(opts: &VmLaunchOpts) -> (result: Result<String, Error>)
    ensures
        match crate::kernel::init_args(crate::text::texts(opts.command@)) {
            Ok(init_args) => result matches Ok(line) && line@ == kernel_line(
                opts.recovery,
                init_args,
            ),
            Err(expected) => result matches Err(error) && error@ == expected,
        },
{
    let mut line = "console=hvc0 reboot=t panic=-1 rdinit=/init".to_string();
    if opts.recovery {
        line.append(" init_recovery=1");
    }
    match format_init_args(&opts.command) {
        Ok(Some(init_args)) => {
            line.append(" -- ");
            line.append(init_args.as_str());
            assert(line@ =~= kernel_line(opts.recovery, Some(init_args@)));
            Ok(line)
        },
        Ok(None) => {
            assert(line@ =~= kernel_line(opts.recovery, None));
            Ok(line)
        },
        Err(error) => Err(error),
    }
}

/// The command that boots a VM for `opts`, given which of the files that it
/// needs are there. Every file is checked for before QEMU is run: QEMU creates
/// the serial pty before it opens the drives, so a boot doomed by a missing
/// file would still briefly expose a pty.
///
/// Paths are relative to the current working directory.
pub fn vm_command(opts: &VmLaunchOpts, found: &Presence) -> (result: Result<CommandLine, Error>)
    ensures
        match boot_command(*opts, *found) {
            Ok(expected) => result matches Ok(command) && command@ == expected,
            Err(expected) => result matches Err(error) && error@ == expected,
        },
{
    let line = match format_kernel_line(opts) {
        Ok(line) => line,
        Err(error) => {
            return Err(error);
        },
    };
    match ensure_disks_exist(&opts.additional_disks, &found.disks) {
        Ok(()) => {},
        Err(error) => {
            return Err(error);
        },
    }
    match ensure_exists(&opts.root_fs, "root fs image", found.root_fs) {
        Ok(()) => {},
        Err(error) => {
            return Err(error);
        },
    }
    match ensure_exists(&opts.kernel, "kernel image", found.kernel) {
        Ok(()) => {},
        Err(error) => {
            return Err(error);
        },
    }
    match ensure_exists(&opts.initrd, "initrd image", found.initrd) {
        Ok(()) => {},
        Err(error) => {
            return Err(error);
        },
    }
    let mut args: Vec<Arg> = Vec::new();
    assert(args_view(args@) =~= Seq::empty());
    push_cpu(&mut args, opts.emulate);
    push_machine(&mut args, opts.cores, opts.memory_megs);
    push_disks(&mut args, &opts.additional_disks);
    push_drive(&mut args, "root", &opts.root_fs);
    push_network(&mut args, opts.net_port);
    push_serial(&mut args, &opts.serial_path);
    push_boot(&mut args, &opts.kernel, &opts.initrd, line.as_str());
    assert(args_view(args@) =~= vm_args(*opts, line@));
    let output = if opts.dump_boot_log {
        Stdio::Inherit
    } else {
        Stdio::Null
    };
    Ok(
        CommandLine {
            program: Arg::Text("qemu-system-aarch64".to_string()),
            args,
            stdin: Stdio::Null,
            stdout: output,
            stderr: output,
        },
    )
}

/// gvproxy as it is run to serve the given port and to report to the given
/// socket. By default gvproxy forwards a fixed host port to the guest's SSH
/// port, which would allow only one VM at a time, so that is switched off.
pub open spec fn gvproxy(port: u16, notify_path: Seq<u8>, debug: bool) -> CommandView {
    let output = if debug {
        Stdio::Inherit
    } else {
        Stdio::Null
    };
    CommandView {
        program: ArgView::Text("gvproxy"@),
        args: words(seq!["-listen-qemu"]).push(
            ArgView::Text("tcp://127.0.0.1:"@ + crate::text::decimal(port as nat)),
        ) + words(seq!["-notification"]).push(
            ArgView::Text("unix://"@ + crate::path::lossy_text(notify_path)),
        ) + words(
            if debug {
                seq!["-ssh-port", "-1", "-debug"]
            } else {
                seq!["-ssh-port", "-1"]
            },
        ),
        stdin: Stdio::Null,
        stdout: output,
        stderr: output,
    }
}

/// The socket in `dir` that gvproxy reports to.
pub fn notify_socket(dir: &FilePath) -> (path: FilePath)
    ensures
        path@ == crate::path::joined(dir@, vstd::utf8::encode_utf8("notify.sock"@)),
{
    dir.join("notify.sock")
}

/// The command that runs gvproxy on a localhost TCP port. With `debug` gvproxy
/// logs verbosely to the inherited stderr, otherwise its output is discarded.
pub fn gvproxy_command(port: u16, notify_path: &FilePath, debug: bool) -> (command: CommandLine)
    ensures
        command@ == gvproxy(port, notify_path@, debug),
{
    let mut listen = "tcp://127.0.0.1:".to_string();
    listen.append(to_decimal(port as u64).as_str());
    let mut notify = "unix://".to_string();
    notify.append(notify_path.display().as_str());
    let mut args: Vec<Arg> = Vec::new();
    push_words(&mut args, ["-listen-qemu"]);
    push_text(&mut args, listen.as_str());
    push_words(&mut args, ["-notification"]);
    push_text(&mut args, notify.as_str());
    let output = if debug {
        push_words(&mut args, ["-ssh-port", "-1", "-debug"]);
        Stdio::Inherit
    } else {
        push_words(&mut args, ["-ssh-port", "-1"]);
        Stdio::Null
    };
    assert(args_view(args@) =~= gvproxy(port, notify_path@, debug).args);
    CommandLine {
        program: Arg::Text("gvproxy".to_string()),
        args,
        stdin: Stdio::Null,
        stdout: output,
        stderr: output,
    }
}

/// What to say when gvproxy cannot be spawned.
pub fn gvproxy_spawn_failure(reason: &str) -> (message: String)
    ensures
        message@ == "cannot spawn gvproxy (is it on PATH?): "@ + reason@,
{
    let mut message = "cannot spawn gvproxy (is it on PATH?): ".to_string();
    message.append(reason);
    message
}

/// What a line from gvproxy's notification socket means.
#[derive(Debug, PartialEq, Eq)]
pub enum Readiness {
    /// gvproxy accepts connections.
    Ready,
    /// The line is about something else; read on.
    Waiting,
    /// There will be no such line.
    Failed(Error),
}

/// Judge the next line from gvproxy's notification socket, `None` at its end.
/// The message waited for is `{"notification_type":"ready"}`.
pub fn gvproxy_readiness(line: Option<&str>) -> (readiness: Readiness)
    ensures
        readiness is Ready <==> (line matches Some(line) && crate::text::has_part(
            line@,
            "\"ready\""@,
        )),
        readiness is Failed <==> line is None,
        readiness matches Readiness::Failed(error) ==> error@ == (ErrorView {
            kind: ErrorKind::Other,
            message: "gvproxy closed the notification socket"@,
        }),
{
    match line {
        Some(line) => if contains_text(line, "\"ready\"") {
            Readiness::Ready
        } else {
            Readiness::Waiting
        },
        None => Readiness::Failed(
            Error::new(
                ErrorKind::Other,
                "gvproxy closed the notification socket".to_string(),
            ),
        ),
    }
}

/// QEMU is run only if every file that it needs is there and the command can
/// be passed on; what goes wrong is reported one thing at a time.
pub proof fn law_boot_needs_every_file(opts: VmLaunchOpts, found: Presence)
    ensures
        boot_command(opts, found) is Ok <==> {
            &&& crate::kernel::init_args(crate::text::texts(opts.command@)) is Ok
            &&& found.disks@.len() >= opts.additional_disks@.len()
            &&& forall|i: int|
                0 <= i < opts.additional_disks@.len() ==> #[trigger] found.disks@[i]
            &&& found.root_fs && found.kernel && found.initrd
        },
{
    lemma_none_missing(opts.additional_disks@, found.disks@);
}

/// No disk is missing exactly when each was found.
proof fn lemma_none_missing(disks: Seq<FilePath>, found: Seq<bool>)
    ensures
        first_missing(disks, found) is None <==> found.len() >= disks.len() && forall|i: int|
            0 <= i < disks.len() ==> #[trigger] found[i],
    decreases disks.len(),
{
    if disks.len() > 0 && found.len() > 0 {
        let rest = found.drop_first();
        lemma_none_missing(disks.drop_first(), rest);
        if first_missing(disks, found) is None {
            assert forall|i: int| 0 <= i < disks.len() implies #[trigger] found[i] by {
                if i > 0 {
                    assert(rest[i - 1]);
                }
            }
        } else if found.len() >= disks.len() && forall|i: int|
            0 <= i < disks.len() ==> #[trigger] found[i] {
            assert forall|i: int| 0 <= i < disks.len() - 1 implies #[trigger] rest[i] by {
                assert(found[i + 1]);
            }
        }
    }
}

/// A drive takes four arguments.
proof fn lemma_drive_args_len(id: Seq<char>, path: Seq<u8>)
    ensures
        drive_args(id, path).len() == 4,
{
}

/// The last drive is the guest's first disk; the drives in front of it move up by
/// one.
proof fn lemma_drive_behind(front: Seq<ArgView>, last: Seq<ArgView>, number: int)
    requires
        last.len() == 4,
    ensures
        guest_disk(front + last, 0) == last,
        0 <= number && 4 * number + 4 <= front.len() ==> guest_disk(front + last, number + 1)
            == guest_disk(front, number),
{
    assert(guest_disk(front + last, 0) =~= last);
    if 0 <= number && 4 * number + 4 <= front.len() {
        assert(guest_disk(front + last, number + 1) =~= guest_disk(front, number));
    }
}

/// A drive put in front of others comes last for the guest, and leaves the
/// numbers of the others as they are.
proof fn lemma_drive_in_front(first: Seq<ArgView>, back: Seq<ArgView>, number: int)
    requires
        first.len() == 4,
        0 <= number,
    ensures
        4 * number + 4 <= back.len() ==> guest_disk(first + back, number) == guest_disk(
            back,
            number,
        ),
        4 * number == back.len() ==> guest_disk(first + back, number) == first,
{
    if 4 * number + 4 <= back.len() {
        assert(guest_disk(first + back, number) =~= guest_disk(back, number));
    }
    if 4 * number == back.len() {
        assert(guest_disk(first + back, number) =~= first);
    }
}

/// Each additional disk takes four arguments.
proof fn lemma_disk_args_len(disks: Seq<FilePath>)
    ensures
        disk_args(disks).len() == 4 * disks.len(),
    decreases disks.len(),
{
    if disks.len() > 0 {
        lemma_drive_args_len(disk_id((disks.len() - 1) as nat), disks.last()@);
        lemma_disk_args_len(disks.drop_last());
    }
}

/// Counted from the end, the additional disk `i` is number `i`.
proof fn lemma_disk_number(disks: Seq<FilePath>, i: int)
    requires
        0 <= i < disks.len(),
    ensures
        guest_disk(disk_args(disks), i) == drive_args(disk_id(i as nat), disks[i]@),
    decreases disks.len(),
{
    let front = disks.drop_last();
    let first = drive_args(disk_id((disks.len() - 1) as nat), disks.last()@);
    lemma_drive_args_len(disk_id((disks.len() - 1) as nat), disks.last()@);
    lemma_disk_args_len(front);
    lemma_drive_in_front(first, disk_args(front), i);
    if i < front.len() {
        lemma_disk_number(front, i);
    }
}

/// The disks appear in the guest in the given order: counted from the end of the
/// drives, as the guest does, the root disk is number 0 (`/dev/vda`) and the
/// additional disk `i` is number `i + 1` (`/dev/vdb`, `/dev/vdc`, ...).
pub proof fn law_disks_keep_their_order(disks: Seq<FilePath>, root_fs: Seq<u8>, i: int)
    ensures
        all_drives(disks, root_fs).len() == 4 * (disks.len() + 1),
        guest_disk(all_drives(disks, root_fs), 0) == drive_args("root"@, root_fs),
        0 <= i < disks.len() ==> guest_disk(all_drives(disks, root_fs), i + 1) == drive_args(
            disk_id(i as nat),
            disks[i]@,
        ),
{
    let root = drive_args("root"@, root_fs);
    lemma_drive_args_len("root"@, root_fs);
    lemma_disk_args_len(disks);
    lemma_drive_behind(disk_args(disks), root, i);
    if 0 <= i < disks.len() {
        lemma_disk_number(disks, i);
    }
}

/// The options of QEMU whose values depend on how a VM is to be booted.
pub open spec fn value_options() -> Seq<Seq<char>> {
    seq![
        "-smp"@,
        "-m"@,
        "-drive"@,
        "-netdev"@,
        "-chardev"@,
        "-kernel"@,
        "-initrd"@,
        "-append"@,
    ]
}

/// The options are all among them.
proof fn lemma_value_options()
    ensures
        value_options().contains("-smp"@),
        value_options().contains("-m"@),
        value_options().contains("-drive"@),
        value_options().contains("-netdev"@),
        value_options().contains("-chardev"@),
        value_options().contains("-kernel"@),
        value_options().contains("-initrd"@),
        value_options().contains("-append"@),
{
    let options = value_options();
    assert(options[0] == "-smp"@);
    assert(options[1] == "-m"@);
    assert(options[2] == "-drive"@);
    assert(options[3] == "-netdev"@);
    assert(options[4] == "-chardev"@);
    assert(options[5] == "-kernel"@);
    assert(options[6] == "-initrd"@);
    assert(options[7] == "-append"@);
}

/// The machine has the cores and the memory asked for.
proof fn lemma_machine_values(cores: u16, memory_megs: u32)
    ensures
        given_number(
            machine_args(cores, memory_megs),
            "-smp"@,
            "cpus=1,sockets=1,cores="@,
            cores as nat,
            ",threads=1"@,
        ),
        given_number(machine_args(cores, memory_megs), "-m"@, ""@, memory_megs as nat, "M"@),
{
    let args = machine_args(cores, memory_megs);
    let cores_text = "cpus=1,sockets=1,cores="@ + crate::text::decimal(cores as nat)
        + ",threads=1"@;
    let memory_text = crate::text::decimal(memory_megs as nat) + "M"@;
    reveal_strlit("");
    assert(args[6] == ArgView::Text("-smp"@));
    assert(args[7] == ArgView::Text(cores_text));
    assert(args[8] == ArgView::Text("-m"@));
    assert(args[9] == ArgView::Text(memory_text));
    crate::text::lemma_tells("cpus=1,sockets=1,cores="@, cores as nat, ",threads=1"@);
    crate::text::lemma_tells(""@, memory_megs as nat, "M"@);
    assert(""@ + crate::text::decimal(memory_megs as nat) + "M"@ =~= memory_text);
    assert(given(args, "-smp"@, ArgView::Text(cores_text)));
    assert(given(args, "-m"@, ArgView::Text(memory_text)));
}

/// The network card is connected to the port asked for.
proof fn lemma_network_values(net_port: u16)
    ensures
        given_number(
            network_args(net_port),
            "-netdev"@,
            "socket,id=net1,connect=127.0.0.1:"@,
            net_port as nat,
            ""@,
        ),
{
    let args = network_args(net_port);
    let text = "socket,id=net1,connect=127.0.0.1:"@ + crate::text::decimal(net_port as nat);
    reveal_strlit("");
    assert(args[2] == ArgView::Text("-netdev"@));
    assert(args[3] == ArgView::Text(text));
    crate::text::lemma_tells("socket,id=net1,connect=127.0.0.1:"@, net_port as nat, ""@);
    assert(text + ""@ =~= text);
    assert(given(args, "-netdev"@, ArgView::Text(text)));
}

/// The data port is exposed at the path asked for.
proof fn lemma_serial_values(serial_path: Seq<u8>)
    ensures
        given(
            serial_args(serial_path),
            "-chardev"@,
            ArgView::Text(
                "pty,signal=off,path="@ + crate::path::lossy_text(serial_path) + ",id=host-pty"@,
            ),
        ),
{
    let args = serial_args(serial_path);
    assert(args[6] == ArgView::Text("-chardev"@));
    assert(args[7] == ArgView::Text(
        "pty,signal=off,path="@ + crate::path::lossy_text(serial_path) + ",id=host-pty"@,
    ));
}

/// What is booted is what was asked for.
proof fn lemma_boot_values(kernel: Seq<u8>, initrd: Seq<u8>, line: Seq<char>)
    ensures
        given(boot_args(kernel, initrd, line), "-kernel"@, ArgView::Path(kernel)),
        given(boot_args(kernel, initrd, line), "-initrd"@, ArgView::Path(initrd)),
        given(boot_args(kernel, initrd, line), "-append"@, ArgView::Text(line)),
{
    let args = boot_args(kernel, initrd, line);
    assert(args[4] == ArgView::Text("-kernel"@));
    assert(args[5] == ArgView::Path(kernel));
    assert(args[6] == ArgView::Text("-initrd"@));
    assert(args[7] == ArgView::Path(initrd));
    assert(args[8] == ArgView::Text("-append"@));
    assert(args[9] == ArgView::Text(line));
}

/// What stands in front of the drives, and what stands behind the drives, the
/// network card and the serial devices in turn.
proof fn lemma_parts_of_the_command(opts: VmLaunchOpts, line: Seq<char>)
    ensures
        ({
            let args = vm_args(opts, line);
            let none = Seq::<ArgView>::empty();
            let cpu = cpu_args(opts.emulate);
            let machine = machine_args(opts.cores, opts.memory_megs);
            let drives = all_drives(opts.additional_disks@, opts.root_fs@);
            let network = network_args(opts.net_port);
            let serial = serial_args(opts.serial_path@);
            let boot = boot_args(opts.kernel@, opts.initrd@, line);
            &&& args == cpu + machine + (drives + network + serial + boot)
            &&& args == (cpu + machine) + drives + (network + serial + boot)
            &&& args == (cpu + machine + drives) + network + (serial + boot)
            &&& args == (cpu + machine + drives + network) + serial + boot
            &&& args == (cpu + machine + drives + network + serial) + boot + none
        }),
{
    let args = vm_args(opts, line);
    let none = Seq::<ArgView>::empty();
    let cpu = cpu_args(opts.emulate);
    let machine = machine_args(opts.cores, opts.memory_megs);
    let drives = all_drives(opts.additional_disks@, opts.root_fs@);
    let network = network_args(opts.net_port);
    let serial = serial_args(opts.serial_path@);
    let boot = boot_args(opts.kernel@, opts.initrd@, line);
    lemma_regrouped(cpu, machine, drives, network, serial, boot);
}

/// Where six lists are joined, it does not matter how they are grouped.
proof fn lemma_regrouped<A>(
    a: Seq<A>,
    b: Seq<A>,
    c: Seq<A>,
    d: Seq<A>,
    e: Seq<A>,
    f: Seq<A>,
)
    ensures
        a + b + c + d + e + f == a + b + (c + d + e + f),
        a + b + c + d + e + f == (a + b) + c + (d + e + f),
        a + b + c + d + e + f == (a + b + c) + d + (e + f),
        a + b + c + d + e + f == (a + b + c + d + e) + f + Seq::<A>::empty(),
{
    assert(a + b + c + d + e + f =~= a + b + (c + d + e + f));
    assert(a + b + c + d + e + f =~= (a + b) + c + (d + e + f));
    assert(a + b + c + d + e + f =~= (a + b + c) + d + (e + f));
    assert(a + b + c + d + e + f =~= (a + b + c + d + e) + f + Seq::<A>::empty());
}

/// A VM is booted as asked for: with that many cores and that much memory, its
/// network card connected to that port, its data port exposed at that path, and
/// that kernel and initrd.
pub proof fn law_vm_is_booted_as_asked(opts: VmLaunchOpts, found: Presence)
    ensures
        boot_command(opts, found) matches Ok(command) ==> {
            &&& given_number(
                command.args,
                "-smp"@,
                "cpus=1,sockets=1,cores="@,
                opts.cores as nat,
                ",threads=1"@,
            )
            &&& given_number(command.args, "-m"@, ""@, opts.memory_megs as nat, "M"@)
            &&& given_number(
                command.args,
                "-netdev"@,
                "socket,id=net1,connect=127.0.0.1:"@,
                opts.net_port as nat,
                ""@,
            )
            &&& given(
                command.args,
                "-chardev"@,
                ArgView::Text(
                    "pty,signal=off,path="@ + crate::path::lossy_text(opts.serial_path@)
                        + ",id=host-pty"@,
                ),
            )
            &&& given(command.args, "-kernel"@, ArgView::Path(opts.kernel@))
            &&& given(command.args, "-initrd"@, ArgView::Path(opts.initrd@))
            &&& command.program == ArgView::Text("qemu-system-aarch64"@)
            &&& command.stdin is Null
            &&& command.stdout == command.stderr
            &&& command.stdout == (if opts.dump_boot_log {
                Stdio::Inherit
            } else {
                Stdio::Null
            })
        },
{
    if let Ok(init_args) = crate::kernel::init_args(crate::text::texts(opts.command@)) {
        let line = kernel_line(opts.recovery, init_args);
        let none = Seq::<ArgView>::empty();
        let cpu = cpu_args(opts.emulate);
        let machine = machine_args(opts.cores, opts.memory_megs);
        let drives = all_drives(opts.additional_disks@, opts.root_fs@);
        let network = network_args(opts.net_port);
        let serial = serial_args(opts.serial_path@);
        let boot = boot_args(opts.kernel@, opts.initrd@, line);
        lemma_parts_of_the_command(opts, line);
        lemma_machine_values(opts.cores, opts.memory_megs);
        lemma_network_values(opts.net_port);
        lemma_serial_values(opts.serial_path@);
        lemma_boot_values(opts.kernel@, opts.initrd@, line);
        let behind_machine = drives + network + serial + boot;
        lemma_number_given_in(
            cpu,
            machine,
            behind_machine,
            "-smp"@,
            "cpus=1,sockets=1,cores="@,
            opts.cores as nat,
            ",threads=1"@,
        );
        lemma_number_given_in(
            cpu,
            machine,
            behind_machine,
            "-m"@,
            ""@,
            opts.memory_megs as nat,
            "M"@,
        );
        lemma_number_given_in(
            cpu + machine + drives,
            network,
            serial + boot,
            "-netdev"@,
            "socket,id=net1,connect=127.0.0.1:"@,
            opts.net_port as nat,
            ""@,
        );
        lemma_given_in(
            cpu + machine + drives + network,
            serial,
            boot,
            "-chardev"@,
            ArgView::Text(
                "pty,signal=off,path="@ + crate::path::lossy_text(opts.serial_path@)
                    + ",id=host-pty"@,
            ),
        );
        let in_front = cpu + machine + drives + network + serial;
        lemma_given_in(in_front, boot, none, "-kernel"@, ArgView::Path(opts.kernel@));
        lemma_given_in(in_front, boot, none, "-initrd"@, ArgView::Path(opts.initrd@));
    }
}

/// The kernel gets the command: its line is the fixed part, the recovery switch if
/// that is asked for, and the line of the command behind two dashes, if there is a
/// command.
pub proof fn law_kernel_gets_the_command(opts: VmLaunchOpts, found: Presence)
    ensures
        boot_command(opts, found) matches Ok(command) ==> {
            let fixed = "console=hvc0 reboot=t panic=-1 rdinit=/init"@ + (if opts.recovery {
                " init_recovery=1"@
            } else {
                Seq::empty()
            });
            match crate::kernel::init_args(crate::text::texts(opts.command@)) {
                Ok(Some(line)) => given(
                    command.args,
                    "-append"@,
                    ArgView::Text(fixed + " -- "@ + line),
                ),
                Ok(None) => given(command.args, "-append"@, ArgView::Text(fixed)),
                Err(_) => false,
            }
        },
{
    if let Ok(init_args) = crate::kernel::init_args(crate::text::texts(opts.command@)) {
        let line = kernel_line(opts.recovery, init_args);
        let fixed = "console=hvc0 reboot=t panic=-1 rdinit=/init"@ + (if opts.recovery {
            " init_recovery=1"@
        } else {
            Seq::empty()
        });
        let none = Seq::<ArgView>::empty();
        let boot = boot_args(opts.kernel@, opts.initrd@, line);
        let in_front = cpu_args(opts.emulate) + machine_args(opts.cores, opts.memory_megs)
            + all_drives(opts.additional_disks@, opts.root_fs@) + network_args(opts.net_port)
            + serial_args(opts.serial_path@);
        lemma_parts_of_the_command(opts, line);
        lemma_boot_values(opts.kernel@, opts.initrd@, line);
        lemma_given_in(in_front, boot, none, "-append"@, ArgView::Text(line));
        match init_args {
            Some(rest) => assert(line =~= fixed + " -- "@ + rest),
            None => assert(line =~= fixed),
        }
    }
}

/// A drive names its file, says its format, and is attached under its own id.
pub proof fn law_drive_names_its_file(id: Seq<char>, path: Seq<u8>)
    ensures
        drive_args(id, path).len() == 4,
        drive_args(id, path)[0] == ArgView::Text("-drive"@),
        drive_args(id, path)[1] == ArgView::Text(
            "id="@ + id + ",file="@ + crate::path::lossy_text(path) + ",format="@ + format_of(path)
                + ",if=none"@,
        ),
        drive_args(id, path)[2] == ArgView::Text("-device"@),
        drive_args(id, path)[3] == ArgView::Text("virtio-blk-device,drive="@ + id),
{
}

/// An additional disk goes by the number of its place, so no two share an id.
pub proof fn law_disks_have_their_own_ids(a: nat, b: nat)
    ensures
        crate::text::tells(disk_id(a), "disk"@, a, ""@),
        disk_id(a) == disk_id(b) ==> a == b,
{
    reveal_strlit("");
    crate::text::lemma_tells("disk"@, a, ""@);
    assert("disk"@ + crate::text::decimal(a) + ""@ =~= disk_id(a));
    if disk_id(a) == disk_id(b) {
        let n = "disk"@.len() as int;
        assert(disk_id(a).skip(n) =~= crate::text::decimal(a));
        assert(disk_id(b).skip(n) =~= crate::text::decimal(b));
        crate::text::law_decimals_differ(a, b);
    }
}

/// The drives stand together, behind the processor and the machine.
pub proof fn law_drives_stand_together(opts: VmLaunchOpts, line: Seq<char>)
    ensures
        ({
            let start = if opts.emulate {
                12int
            } else {
                14int
            };
            let drives = all_drives(opts.additional_disks@, opts.root_fs@);
            vm_args(opts, line).subrange(start, start + drives.len()) == drives
        }),
{
    let cpu = cpu_args(opts.emulate);
    let machine = machine_args(opts.cores, opts.memory_megs);
    let drives = all_drives(opts.additional_disks@, opts.root_fs@);
    let rest = network_args(opts.net_port) + serial_args(opts.serial_path@) + boot_args(
        opts.kernel@,
        opts.initrd@,
        line,
    );
    lemma_parts_of_the_command(opts, line);
    assert(cpu.len() + machine.len() == (if opts.emulate {
        12int
    } else {
        14int
    }));
    lemma_middle(cpu + machine, drives, rest);
}

/// The middle of three joined lists is found behind the first.
proof fn lemma_middle<A>(front: Seq<A>, middle: Seq<A>, back: Seq<A>)
    ensures
        (front + middle + back).subrange(front.len() as int, (front + middle).len() as int)
            == middle,
{
    assert((front + middle + back).subrange(front.len() as int, (front + middle).len() as int)
        =~= middle);
}

/// Two drives of one id differ in what stands behind `-drive` alone.
proof fn lemma_drives_differ(id: Seq<char>, a: Seq<u8>, b: Seq<u8>)
    ensures
        differ_behind(drive_args(id, a), drive_args(id, b), value_options()),
{
    lemma_value_options();
    law_drive_names_its_file(id, a);
    law_drive_names_its_file(id, b);
}

/// Equally many disks differ in what stands behind `-drive` alone.
proof fn lemma_disks_differ(a: Seq<FilePath>, b: Seq<FilePath>)
    requires
        a.len() == b.len(),
    ensures
        differ_behind(disk_args(a), disk_args(b), value_options()),
    decreases a.len(),
{
    if a.len() > 0 {
        let id = disk_id((a.len() - 1) as nat);
        lemma_drives_differ(id, a.last()@, b.last()@);
        lemma_disks_differ(a.drop_last(), b.drop_last());
        lemma_differ_joined(
            drive_args(id, a.last()@),
            drive_args(id, b.last()@),
            disk_args(a.drop_last()),
            disk_args(b.drop_last()),
            value_options(),
        );
    }
}

/// Two machines differ in cores and memory alone.
proof fn lemma_machines_differ(a: VmLaunchOpts, b: VmLaunchOpts)
    ensures
        differ_behind(
            machine_args(a.cores, a.memory_megs),
            machine_args(b.cores, b.memory_megs),
            value_options(),
        ),
{
    lemma_value_options();
    let x = machine_args(a.cores, a.memory_megs);
    let y = machine_args(b.cores, b.memory_megs);
    assert(x[6] == ArgView::Text("-smp"@) && y[6] == ArgView::Text("-smp"@));
    assert(x[8] == ArgView::Text("-m"@) && y[8] == ArgView::Text("-m"@));
}

/// Two network cards differ in the port alone, two serial devices in the path
/// alone.
proof fn lemma_ports_differ(a: VmLaunchOpts, b: VmLaunchOpts)
    ensures
        differ_behind(network_args(a.net_port), network_args(b.net_port), value_options()),
        differ_behind(serial_args(a.serial_path@), serial_args(b.serial_path@), value_options()),
{
    lemma_value_options();
    let x = network_args(a.net_port);
    let y = network_args(b.net_port);
    assert(x[2] == ArgView::Text("-netdev"@) && y[2] == ArgView::Text("-netdev"@));
    let x = serial_args(a.serial_path@);
    let y = serial_args(b.serial_path@);
    assert(x[6] == ArgView::Text("-chardev"@) && y[6] == ArgView::Text("-chardev"@));
}

/// What is booted differs in its values alone.
proof fn lemma_boots_differ(
    a: VmLaunchOpts,
    b: VmLaunchOpts,
    line_a: Seq<char>,
    line_b: Seq<char>,
)
    ensures
        differ_behind(
            boot_args(a.kernel@, a.initrd@, line_a),
            boot_args(b.kernel@, b.initrd@, line_b),
            value_options(),
        ),
{
    lemma_value_options();
    let x = boot_args(a.kernel@, a.initrd@, line_a);
    let y = boot_args(b.kernel@, b.initrd@, line_b);
    assert(x[4] == ArgView::Text("-kernel"@) && y[4] == ArgView::Text("-kernel"@));
    assert(x[6] == ArgView::Text("-initrd"@) && y[6] == ArgView::Text("-initrd"@));
    assert(x[8] == ArgView::Text("-append"@) && y[8] == ArgView::Text("-append"@));
}

/// Two VMs with equally many disks, both emulated or both not, are booted by the
/// same command but for the values behind the options that say what was asked for.
pub proof fn law_commands_differ_in_values_alone(
    a: VmLaunchOpts,
    b: VmLaunchOpts,
    found_a: Presence,
    found_b: Presence,
)
    requires
        a.emulate == b.emulate,
        a.additional_disks@.len() == b.additional_disks@.len(),
    ensures
        boot_command(a, found_a) matches Ok(x) ==> (boot_command(b, found_b) matches Ok(y)
            ==> differ_behind(x.args, y.args, value_options())),
{
    if let Ok(x) = boot_command(a, found_a) {
        if let Ok(y) = boot_command(b, found_b) {
            let options = value_options();
            let line_a = kernel_line(
                a.recovery,
                crate::kernel::init_args(crate::text::texts(a.command@))->Ok_0,
            );
            let line_b = kernel_line(
                b.recovery,
                crate::kernel::init_args(crate::text::texts(b.command@))->Ok_0,
            );
            let cpu = cpu_args(a.emulate);
            lemma_machines_differ(a, b);
            lemma_ports_differ(a, b);
            lemma_boots_differ(a, b, line_a, line_b);
            lemma_disks_differ(a.additional_disks@, b.additional_disks@);
            lemma_drives_differ("root"@, a.root_fs@, b.root_fs@);
            lemma_differ_joined(
                disk_args(a.additional_disks@),
                disk_args(b.additional_disks@),
                drive_args("root"@, a.root_fs@),
                drive_args("root"@, b.root_fs@),
                options,
            );
            let machine_a = machine_args(a.cores, a.memory_megs);
            let machine_b = machine_args(b.cores, b.memory_megs);
            let drives_a = all_drives(a.additional_disks@, a.root_fs@);
            let drives_b = all_drives(b.additional_disks@, b.root_fs@);
            let network_a = network_args(a.net_port);
            let network_b = network_args(b.net_port);
            let serial_a = serial_args(a.serial_path@);
            let serial_b = serial_args(b.serial_path@);
            let boot_a = boot_args(a.kernel@, a.initrd@, line_a);
            let boot_b = boot_args(b.kernel@, b.initrd@, line_b);
            assert(differ_behind(cpu, cpu, options));
            lemma_differ_joined(cpu, cpu, machine_a, machine_b, options);
            lemma_differ_joined(cpu + machine_a, cpu + machine_b, drives_a, drives_b, options);
            lemma_differ_joined(
                cpu + machine_a + drives_a,
                cpu + machine_b + drives_b,
                network_a,
                network_b,
                options,
            );
            lemma_differ_joined(
                cpu + machine_a + drives_a + network_a,
                cpu + machine_b + drives_b + network_b,
                serial_a,
                serial_b,
                options,
            );
            lemma_differ_joined(
                cpu + machine_a + drives_a + network_a + serial_a,
                cpu + machine_b + drives_b + network_b + serial_b,
                boot_a,
                boot_b,
                options,
            );
        }
    }
}

/// One more disk adds one more drive, in front of the others, and changes nothing
/// else.
pub proof fn law_a_disk_adds_a_drive(
    opts: VmLaunchOpts,
    more: VmLaunchOpts,
    disk: FilePath,
    line: Seq<char>,
)
    requires
        more == (VmLaunchOpts { additional_disks: more.additional_disks, ..opts }),
        more.additional_disks@ == opts.additional_disks@.push(disk),
    ensures
        ({
            let start = if opts.emulate {
                12int
            } else {
                14int
            };
            let args = vm_args(opts, line);
            vm_args(more, line) == args.take(start) + drive_args(
                disk_id(opts.additional_disks@.len()),
                disk@,
            ) + args.skip(start)
        }),
{
    let cpu = cpu_args(opts.emulate);
    let machine = machine_args(opts.cores, opts.memory_megs);
    let drives = all_drives(opts.additional_disks@, opts.root_fs@);
    let drive = drive_args(disk_id(opts.additional_disks@.len()), disk@);
    let rest = network_args(opts.net_port) + serial_args(opts.serial_path@) + boot_args(
        opts.kernel@,
        opts.initrd@,
        line,
    );
    lemma_parts_of_the_command(opts, line);
    lemma_parts_of_the_command(more, line);
    assert(more.additional_disks@.drop_last() =~= opts.additional_disks@);
    assert(all_drives(more.additional_disks@, more.root_fs@) =~= drive + drives);
    assert(cpu.len() + machine.len() == (if opts.emulate {
        12int
    } else {
        14int
    }));
    lemma_inserted(cpu + machine, drive, drives, rest);
}

/// What is put in front of a part of a list is put in the list.
proof fn lemma_inserted<A>(front: Seq<A>, one: Seq<A>, part: Seq<A>, back: Seq<A>)
    ensures
        front + (one + part) + back == (front + part + back).take(front.len() as int) + one + (front
            + part + back).skip(front.len() as int),
{
    assert(front + (one + part) + back =~= (front + part + back).take(front.len() as int) + one + (
    front + part + back).skip(front.len() as int));
}

/// The format of a disk image goes by its extension: `qcow2`, in whatever case, is
/// that format, anything else is raw.
pub proof fn law_format_goes_by_the_extension(dir: Seq<u8>, stem: Seq<u8>, ext: Seq<u8>)
    requires
        stem.len() > 0,
        !stem.contains(0x2f),
        !ext.contains(0x2f),
        !ext.contains(0x2e),
        stem.len() > 1 || ext.len() > 0 || stem[0] != 0x2e,
    ensures
        ({
            let file = crate::path::joined(dir, stem.push(0x2e) + ext);
            let is_qcow2 = ext.len() == 5 && (ext[0] == 0x71 || ext[0] == 0x51) && (ext[1] == 0x63
                || ext[1] == 0x43) && (ext[2] == 0x6f || ext[2] == 0x4f) && (ext[3] == 0x77
                || ext[3] == 0x57) && ext[4] == 0x32;
            format_of(file) == (if is_qcow2 {
                "qcow2"@
            } else {
                "raw"@
            })
        }),
        ext.len() > 0 ==> format_of(crate::path::joined(dir, ext)) == "raw"@,
{
    let file = crate::path::joined(dir, stem.push(0x2e) + ext);
    let wanted = vstd::utf8::encode_utf8("qcow2"@);
    crate::path::law_extension_is_behind_the_last_dot(dir, stem, ext);
    crate::path::law_only_the_case_is_ignored(file, wanted);
    reveal_strlit("qcow2");
    vstd::utf8::is_ascii_chars_encode_utf8("qcow2"@);
    assert(wanted =~= seq![0x71u8, 0x63, 0x6f, 0x77, 0x32]);
}

/// The error for a file that is not there says which, and what it is for.
pub proof fn law_missing_file_is_named(path: Seq<u8>, what: Seq<char>)
    ensures
        not_found(path, what).kind is NotFound,
        not_found(path, what).message == what + " not found: "@ + crate::path::lossy_text(path),
{
}

/// Of all that keeps a VM from being booted the first is reported: a command that
/// cannot be passed on, then the first additional disk that is missing, then the
/// root disk, the kernel and the initrd.
pub proof fn law_first_obstacle_is_reported(opts: VmLaunchOpts, found: Presence, i: int)
    ensures
        ({
            let init_args = crate::kernel::init_args(crate::text::texts(opts.command@));
            let disks = opts.additional_disks@;
            let there = |k: int| k < found.disks@.len() && found.disks@[k];
            let all_there = forall|k: int| 0 <= k < disks.len() ==> #[trigger] there(k);
            let obstacle = boot_command(opts, found);
            &&& init_args matches Err(error) ==> obstacle == Err::<CommandView, ErrorView>(error)
            &&& init_args is Ok && 0 <= i < disks.len() && !there(i) && (forall|k: int|
                0 <= k < i ==> #[trigger] there(k)) ==> obstacle == Err::<CommandView, ErrorView>(
                not_found(disks[i]@, "disk image"@),
            )
            &&& init_args is Ok && all_there && !found.root_fs ==> obstacle == Err::<
                CommandView,
                ErrorView,
            >(not_found(opts.root_fs@, "root fs image"@))
            &&& init_args is Ok && all_there && found.root_fs && !found.kernel ==> obstacle
                == Err::<CommandView, ErrorView>(not_found(opts.kernel@, "kernel image"@))
            &&& init_args is Ok && all_there && found.root_fs && found.kernel && !found.initrd
                ==> obstacle == Err::<CommandView, ErrorView>(
                not_found(opts.initrd@, "initrd image"@),
            )
        }),
{
    let disks = opts.additional_disks@;
    let there = |k: int| k < found.disks@.len() && found.disks@[k];
    lemma_none_missing(disks, found.disks@);
    if 0 <= i < disks.len() && !there(i) && (forall|k: int| 0 <= k < i ==> #[trigger] there(k)) {
        if i > 0 {
            assert(there(i - 1));
        }
        assert forall|k: int| 0 <= k < i implies #[trigger] found.disks@[k] by {
            assert(there(k));
        }
        lemma_first_missing(disks, found.disks@, i);
    }
    if forall|k: int| 0 <= k < disks.len() ==> #[trigger] there(k) {
        if disks.len() > 0 {
            assert(there(disks.len() - 1));
        }
        assert forall|k: int| 0 <= k < disks.len() implies #[trigger] found.disks@[k] by {
            assert(there(k));
        }
    }
}

/// The first missing disk is the one in front of which all are there.
proof fn lemma_first_missing(disks: Seq<FilePath>, found: Seq<bool>, i: int)
    requires
        0 <= i < disks.len(),
        !(i < found.len() && found[i]),
        i <= found.len(),
        forall|k: int| 0 <= k < i ==> #[trigger] found[k],
    ensures
        first_missing(disks, found) == Some(disks[i]@),
    decreases disks.len(),
{
    if i > 0 {
        let rest = found.drop_first();
        assert(found[0]);
        assert forall|k: int| 0 <= k < i - 1 implies #[trigger] rest[k] by {
            assert(found[k + 1]);
        }
        lemma_first_missing(disks.drop_first(), rest, i - 1);
        assert(disks.drop_first()[i - 1] == disks[i]);
    }
}

/// gvproxy serves the port and reports to the socket that it was given; with
/// `debug` it is told so and heard, without it is not. Two calls differ in the port
/// and the socket alone.
pub proof fn law_gvproxy_is_run_as_asked(
    port: u16,
    notify_path: Seq<u8>,
    debug: bool,
    other_port: u16,
    other_path: Seq<u8>,
)
    ensures
        given_number(
            gvproxy(port, notify_path, debug).args,
            "-listen-qemu"@,
            "tcp://127.0.0.1:"@,
            port as nat,
            ""@,
        ),
        given(
            gvproxy(port, notify_path, debug).args,
            "-notification"@,
            ArgView::Text("unix://"@ + crate::path::lossy_text(notify_path)),
        ),
        differ_behind(
            gvproxy(port, notify_path, debug).args,
            gvproxy(other_port, other_path, debug).args,
            seq!["-listen-qemu"@, "-notification"@],
        ),
        gvproxy(port, notify_path, true).args == gvproxy(port, notify_path, false).args.push(
            ArgView::Text("-debug"@),
        ),
        gvproxy(port, notify_path, debug).program == ArgView::Text("gvproxy"@),
        gvproxy(port, notify_path, debug).stdin is Null,
        gvproxy(port, notify_path, debug).stdout == gvproxy(port, notify_path, debug).stderr,
        gvproxy(port, notify_path, debug).stdout == (if debug {
            Stdio::Inherit
        } else {
            Stdio::Null
        }),
{
    let args = gvproxy(port, notify_path, debug).args;
    let other = gvproxy(other_port, other_path, debug).args;
    let listen = "tcp://127.0.0.1:"@ + crate::text::decimal(port as nat);
    reveal_strlit("");
    assert(args[0] == ArgView::Text("-listen-qemu"@) && other[0] == args[0]);
    assert(args[1] == ArgView::Text(listen));
    assert(args[2] == ArgView::Text("-notification"@) && other[2] == args[2]);
    assert(args[3] == ArgView::Text("unix://"@ + crate::path::lossy_text(notify_path)));
    crate::text::lemma_tells("tcp://127.0.0.1:"@, port as nat, ""@);
    assert(listen + ""@ =~= listen);
    assert(given(args, "-listen-qemu"@, ArgView::Text(listen)));
    let options = seq!["-listen-qemu"@, "-notification"@];
    assert(options[0] == "-listen-qemu"@ && options[1] == "-notification"@);
    assert(options.contains("-listen-qemu"@) && options.contains("-notification"@));
    assert(gvproxy(port, notify_path, true).args =~= gvproxy(port, notify_path, false).args.push(
        ArgView::Text("-debug"@),
    ));
}

/// What does not count for the name of a file does not count for its format.
pub proof fn law_format_ignores_trailing_parts(path: Seq<u8>)
    ensures
        format_of(path.push(0x2f)) == format_of(path),
        format_of(path + seq![0x2f, 0x2e]) == format_of(path),
        format_of(path + seq![0x2f, 0x2e, 0x2e]) == "raw"@,
{
    crate::path::law_trailing_parts_do_not_count(path);
}

} // verus!
