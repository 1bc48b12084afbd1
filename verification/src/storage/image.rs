//! Images for the files of containers: the commands of the host that make them.

use crate::order::{comes_before, lemma_comes_before};
use crate::text::{concat, texts};
use vstd::prelude::*;

verus! {

/// A command of the host.
pub struct HostCommand {
    pub program: String,
    pub args: Vec<String>,
}

/// A command, the program before its arguments.
pub open spec fn command_line(c: HostCommand) -> Seq<Seq<char>> {
    seq![c.program@] + texts(c.args@)
}

fn command1(program: &str, a: &str) -> (r: HostCommand)
    ensures
        command_line(r) == seq![program@, a@],
{
    let mut args: Vec<String> = Vec::new();
    args.push(a.to_owned());
    let r = HostCommand { program: program.to_owned(), args };
    assert(command_line(r) =~= seq![program@, a@]);
    r
}

fn with_arg(mut c: HostCommand, a: &str) -> (r: HostCommand)
    ensures
        command_line(r) == command_line(c).push(a@),
{
    let ghost before = command_line(c);
    c.args.push(a.to_owned());
    assert(command_line(c) =~= before.push(a@));
    c
}

/// The programs that images are made with, of which the host must have all.
/// Whichever is missing is told, the first one first.
pub fn missing_tool(has_mkfs: bool, has_rsync: bool) -> (r: Option<&'static str>)
    ensures
        match r {
            Some(tool) => if has_mkfs {
                tool@ == "rsync"@ && !has_rsync
            } else {
                tool@ == "mkfs.ext4"@
            },
            None => has_mkfs && has_rsync,
        },
{
    if !has_mkfs {
        Some("mkfs.ext4")
    } else if !has_rsync {
        Some("rsync")
    } else {
        None
    }
}

/// Measures a directory in megabytes.
pub fn measure_command(dir: &str) -> (r: HostCommand)
    ensures
        command_line(r) == seq!["du"@, "-sm"@, dir@],
{
    let r = with_arg(command1("du", "-sm"), dir);
    assert(command_line(r) =~= seq!["du"@, "-sm"@, dir@]);
    r
}

/// The size of an image in bytes.
pub fn image_bytes(size_mb: u64) -> (r: u64)
    requires
        size_mb * 1024 * 1024 <= u64::MAX,
    ensures
        r == size_mb * 1024 * 1024,
{
    size_mb * 1024 * 1024
}

/// Makes an ext4 file system in an image, without a journal.
pub fn mkfs_command(path: &str) -> (r: HostCommand)
    ensures
        command_line(r) == seq![
            "mkfs.ext4"@,
            "-F"@,
            "-O"@,
            "^has_journal"@,
            "-E"@,
            "lazy_itable_init=0,lazy_journal_init=0"@,
            path@,
        ],
{
    let c = with_arg(command1("mkfs.ext4", "-F"), "-O");
    let c = with_arg(with_arg(c, "^has_journal"), "-E");
    let r = with_arg(with_arg(c, "lazy_itable_init=0,lazy_journal_init=0"), path);
    assert(command_line(r) =~= seq![
        "mkfs.ext4"@,
        "-F"@,
        "-O"@,
        "^has_journal"@,
        "-E"@,
        "lazy_itable_init=0,lazy_journal_init=0"@,
        path@,
    ]);
    r
}

/// Where an image is mounted while it is filled.
pub fn mount_dir(img_path: &str) -> (r: String)
    ensures
        r@ == img_path@ + ".mnt"@,
{
    concat(img_path, ".mnt")
}

/// Mounts an image.
pub fn mount_command(img_path: &str, mnt_dir: &str) -> (r: HostCommand)
    ensures
        command_line(r) == seq!["mount"@, "-o"@, "loop"@, img_path@, mnt_dir@],
{
    let r = with_arg(with_arg(with_arg(command1("mount", "-o"), "loop"), img_path), mnt_dir);
    assert(command_line(r) =~= seq!["mount"@, "-o"@, "loop"@, img_path@, mnt_dir@]);
    r
}

/// Copies what is in a directory to a mounted image, and removes what else is there.
pub fn copy_command(src_dir: &str, mnt_dir: &str) -> (r: HostCommand)
    ensures
        command_line(r) == seq![
            "rsync"@,
            "-aHAX"@,
            "--delete"@,
            src_dir@ + "/"@,
            mnt_dir@ + "/"@,
        ],
{
    let from = concat(src_dir, "/");
    let to = concat(mnt_dir, "/");
    let r = with_arg(
        with_arg(with_arg(command1("rsync", "-aHAX"), "--delete"), from.as_str()),
        to.as_str(),
    );
    assert(command_line(r) =~= seq![
        "rsync"@,
        "-aHAX"@,
        "--delete"@,
        src_dir@ + "/"@,
        mnt_dir@ + "/"@,
    ]);
    r
}

/// Unmounts an image.
pub fn unmount_command(mnt_dir: &str) -> (r: HostCommand)
    ensures
        command_line(r) == seq!["umount"@, mnt_dir@],
{
    command1("umount", mnt_dir)
}

/// A step of filling an image.
#[derive(Clone, Copy, Debug, PartialEq, Eq, Structural)]
pub enum FillStep {
    MakeMountDir,
    Mount,
    Copy,
    /// That this fails changes nothing.
    Unmount,
    /// That this fails changes nothing.
    RemoveMountDir,
}

/// The steps of filling an image, in order.
pub open spec fn fill_plan() -> Seq<FillStep> {
    seq![
        FillStep::MakeMountDir,
        FillStep::Mount,
        FillStep::Copy,
        FillStep::Unmount,
        FillStep::RemoveMountDir,
    ]
}

/// The steps of filling an image, in order.
pub fn fill_steps() -> (r: Vec<FillStep>)
    ensures
        r@ == fill_plan(),
{
    let mut steps: Vec<FillStep> = Vec::new();
    steps.push(FillStep::MakeMountDir);
    steps.push(FillStep::Mount);
    steps.push(FillStep::Copy);
    steps.push(FillStep::Unmount);
    steps.push(FillStep::RemoveMountDir);
    assert(steps@ =~= fill_plan());
    steps
}

/// An image is filled in order: it is mounted on a directory that was made for it, filled
/// while it is mounted, unmounted, and the directory is removed only then.
pub proof fn lemma_image_is_filled_in_order()
    ensures
        ({
            let plan = fill_plan();
            &&& plan.no_duplicates()
            &&& comes_before(plan, FillStep::MakeMountDir, FillStep::Mount)
            &&& comes_before(plan, FillStep::Mount, FillStep::Copy)
            &&& comes_before(plan, FillStep::Copy, FillStep::Unmount)
            &&& comes_before(plan, FillStep::Unmount, FillStep::RemoveMountDir)
        }),
{
    let plan = fill_plan();
    assert(plan =~= seq![
        FillStep::MakeMountDir,
        FillStep::Mount,
        FillStep::Copy,
        FillStep::Unmount,
        FillStep::RemoveMountDir,
    ]);
    lemma_comes_before(plan, 0, 1);
    lemma_comes_before(plan, 1, 2);
    lemma_comes_before(plan, 2, 3);
    lemma_comes_before(plan, 3, 4);
}

/// What is still done where a step fails, before the failure is told: a mounted
/// image is unmounted, and the directory for it removed. The directory stays where
/// the program that mounts could not be run at all.
pub open spec fn fill_cleanup(step: FillStep, ran: bool) -> Seq<FillStep> {
    match step {
        FillStep::MakeMountDir => Seq::empty(),
        FillStep::Mount => if ran {
            seq![FillStep::RemoveMountDir]
        } else {
            Seq::empty()
        },
        FillStep::Copy => seq![FillStep::Unmount, FillStep::RemoveMountDir],
        FillStep::Unmount => seq![FillStep::RemoveMountDir],
        FillStep::RemoveMountDir => Seq::empty(),
    }
}

/// What is still done where a step fails; `ran` says whether its program could be
/// run.
pub fn after_failed_fill(step: FillStep, ran: bool) -> (r: Vec<FillStep>)
    ensures
        r@ == fill_cleanup(step, ran),
{
    let mut steps: Vec<FillStep> = Vec::new();
    match step {
        FillStep::MakeMountDir | FillStep::RemoveMountDir => {},
        FillStep::Mount => {
            if ran {
                steps.push(FillStep::RemoveMountDir);
            }
        },
        FillStep::Unmount => {
            steps.push(FillStep::RemoveMountDir);
        },
        FillStep::Copy => {
            steps.push(FillStep::Unmount);
            steps.push(FillStep::RemoveMountDir);
        },
    }
    assert(steps@ =~= fill_cleanup(step, ran));
    steps
}

/// What was mounted is unmounted exactly where copying fails, and before its directory is
/// removed, which is removed wherever it is there and nothing is mounted on it.
pub proof fn lemma_failed_fill_is_cleared_away(step: FillStep, ran: bool)
    ensures
        ({
            let undo = fill_cleanup(step, ran);
            &&& undo.no_duplicates()
            &&& undo.contains(FillStep::Unmount) <==> step is Copy
            &&& undo.contains(FillStep::RemoveMountDir) <==> step is Copy || step is Unmount || (
            step is Mount && ran)
            &&& step is Copy ==> comes_before(undo, FillStep::Unmount, FillStep::RemoveMountDir)
            &&& undo.len() <= 2
        }),
{
    let undo = fill_cleanup(step, ran);
    if step is Copy {
        lemma_comes_before(undo, 0, 1);
    } else if step is Unmount || (step is Mount && ran) {
        assert(undo[0] == FillStep::RemoveMountDir);
    }
}

/// Whether the image is not filled where a step fails.
pub open spec fn fill_fails(step: FillStep) -> bool {
    step is MakeMountDir || step is Mount || step is Copy
}

/// An image is not taken for filled unless its files were copied, and stays filled once
/// they were.
pub proof fn lemma_filled_once_copied(i: int)
    requires
        0 <= i < fill_plan().len(),
    ensures
        fill_fails(fill_plan()[i]) <==> !(exists|k: int|
            0 <= k < i && (#[trigger] fill_plan()[k]) is Copy),
{
    assert(fill_plan()[2] is Copy);
}

/// Whether the image is not filled where a step fails.
pub fn fails_fill(step: FillStep) -> (r: bool)
    ensures
        r == fill_fails(step),
{
    matches!(step, FillStep::MakeMountDir | FillStep::Mount | FillStep::Copy)
}

/// Whatever step fails, an image does not stay mounted, nor does the directory for
/// it stay behind, unless unmounting or removing fails itself, or the program that
/// mounts cannot be run.
pub proof fn lemma_image_does_not_stay_mounted(i: int, k: int, ran: bool)
    requires
        0 <= k < i < fill_plan().len(),
    ensures
        fill_plan()[k] is MakeMountDir && !(fill_plan()[i] is RemoveMountDir) && (ran || !(
        fill_plan()[i] is Mount)) ==> fill_cleanup(fill_plan()[i], ran).contains(
            FillStep::RemoveMountDir,
        ),
        fill_plan()[k] is Mount && fill_plan()[i] is Copy ==> fill_cleanup(
            fill_plan()[i],
            ran,
        ).contains(FillStep::Unmount),
{
    let undo = fill_cleanup(fill_plan()[i], ran);
    if fill_plan()[i] is Copy {
        assert(undo[0] is Unmount && undo[1] is RemoveMountDir);
    } else if !(fill_plan()[i] is RemoveMountDir) && (ran || !(fill_plan()[i] is Mount)) {
        assert(undo[0] is RemoveMountDir);
    }
}

/// The command that writes its input to a file of the guest, and makes the directory
/// of the file before. A file without one is put below `/tmp`.
pub fn push_command(parent: Option<&str>, dest: &str) -> (r: String)
    ensures
        r@ == "mkdir -p "@ + (match parent {
            Some(dir) => dir@,
            None => "/tmp"@,
        }) + " && tee "@ + dest@,
{
    let dir = match parent {
        Some(dir) => dir,
        None => "/tmp",
    };
    let mut r = concat("mkdir -p ", dir);
    r.append(" && tee ");
    r.append(dest);
    r
}

} // verus!
