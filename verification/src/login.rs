//! Who a command runs as in a root filesystem: its user, its environment, and
//! where it is looked up.
use crate::path::{joined, FilePath, SEPARATOR};
use crate::server::{
    build_env, command_env, entries_view, env_entry, handed_on, handed_on_entries, same_bytes, sets, vars_view,
};
use crate::text::{decimal, to_decimal};
use vstd::prelude::*;
use vstd::utf8::encode_utf8;

verus! {

/// Where programs are looked up in a session of a user.
pub const DEFAULT_PATH: &'static str = "/usr/local/sbin:/usr/local/bin:/usr/sbin:/usr/bin:/sbin:/bin";

/// The byte between the lines of a file.
pub const NEWLINE: u8 = 0x0a;

/// The byte between the fields of a line, and between directories.
pub const COLON: u8 = 0x3a;

/// The parts of `bytes` between each two separators.
pub open spec fn split(bytes: Seq<u8>, separator: u8) -> Seq<Seq<u8>>
    decreases bytes.len(),
{
    if bytes.len() == 0 {
        seq![Seq::empty()]
    } else {
        let before = split(bytes.drop_last(), separator);
        if bytes.last() == separator {
            before.push(Seq::empty())
        } else {
            before.drop_last().push(before.last().push(bytes.last()))
        }
    }
}

/// Take `bytes` apart at each separator.
fn split_at(bytes: &[u8], separator: u8) -> (parts: Vec<Vec<u8>>)
    ensures
        entries_view(parts@) == split(bytes@, separator),
{
    let mut parts: Vec<Vec<u8>> = Vec::new();
    let mut current: Vec<u8> = Vec::new();
    let mut i: usize = 0;
    assert(entries_view(parts@).push(current@) =~= split(bytes@.take(0), separator));
    while i < bytes.len()
        invariant
            i <= bytes@.len(),
            entries_view(parts@).push(current@) == split(bytes@.take(i as int), separator),
        decreases bytes@.len() - i,
    {
        let ghost before = entries_view(parts@);
        let ghost last = current@;
        assert(bytes@.take(i + 1).drop_last() =~= bytes@.take(i as int));
        assert(before.push(last).drop_last() =~= before);
        if bytes[i] == separator {
            parts.push(current);
            current = Vec::new();
            assert(entries_view(parts@) =~= before.push(last));
            assert(current@ =~= Seq::empty());
        } else {
            current.push(bytes[i]);
        }
        i += 1;
    }
    assert(bytes@.take(i as int) =~= bytes@);
    let ghost before = entries_view(parts@);
    parts.push(current);
    assert(entries_view(parts@) =~= before.push(current@));
    parts
}

/// A user as the password file of a root filesystem knows it.
#[derive(Debug, PartialEq, Eq)]
pub struct Identity {
    /// The login name.
    pub user: Vec<u8>,
    /// The home directory.
    pub home: FilePath,
}

/// What an [`Identity`] says.
pub struct IdentityView {
    pub user: Seq<u8>,
    pub home: Seq<u8>,
}

impl View for Identity {
    type V = IdentityView;

    open spec fn view(&self) -> IdentityView {
        IdentityView { user: self.user@, home: self.home@ }
    }
}

/// Whether a line is the entry of the user `uid`: seven fields, the third of
/// them the user's number.
pub open spec fn is_entry_of(line: Seq<u8>, uid: nat) -> bool {
    let fields = split(line, COLON);
    fields.len() == 7 && fields[2] == encode_utf8(decimal(uid))
}

/// The user that an entry describes: the name comes first, the home directory
/// sixth.
pub open spec fn described(line: Seq<u8>) -> IdentityView {
    let fields = split(line, COLON);
    IdentityView { user: fields[0], home: fields[5] }
}

/// What the first of `lines` that is an entry of `uid` describes.
pub open spec fn first_entry(lines: Seq<Seq<u8>>, uid: nat) -> Option<IdentityView>
    decreases lines.len(),
{
    if lines.len() == 0 {
        None
    } else if is_entry_of(lines[0], uid) {
        Some(described(lines[0]))
    } else {
        first_entry(lines.skip(1), uid)
    }
}

/// Find the user `uid` in the contents of a password file.
pub fn find_user(passwd: &[u8], uid: u32) -> (identity: Option<Identity>)
    ensures
        identity is Some <==> first_entry(split(passwd@, NEWLINE), uid as nat) is Some,
        identity matches Some(identity) ==> Some(identity@) == first_entry(
            split(passwd@, NEWLINE),
            uid as nat,
        ),
{
    let number = to_decimal(uid as u64);
    let lines = split_at(passwd, NEWLINE);
    let ghost all = split(passwd@, NEWLINE);
    let mut i: usize = 0;
    assert(all.skip(0) =~= all);
    while i < lines.len()
        invariant
            i <= lines@.len(),
            number@ == decimal(uid as nat),
            all == split(passwd@, NEWLINE),
            entries_view(lines@) == all,
            first_entry(all.skip(i as int), uid as nat) == first_entry(all, uid as nat),
        decreases lines@.len() - i,
    {
        let fields = split_at(lines[i].as_slice(), COLON);
        let ghost views = split(all[i as int], COLON);
        assert(all[i as int] == lines@[i as int]@);
        assert(all.skip(i as int)[0] == all[i as int]);
        assert(all.skip(i as int).skip(1) =~= all.skip(i + 1));
        assert(entries_view(fields@) == views);
        if fields.len() == 7 {
            assert(views[0] == fields@[0]@);
            assert(views[2] == fields@[2]@);
            assert(views[5] == fields@[5]@);
            if same_bytes(fields[2].as_slice(), number.as_str().as_bytes()) {
                return Some(
                    Identity {
                        user: fields[0].clone(),
                        home: FilePath::new(fields[5].clone()),
                    },
                );
            }
        }
        i += 1;
    }
    assert(all.skip(i as int).len() == 0);
    None
}

/// Whether a variable is the login's to set.
pub open spec fn set_at_login(key: Seq<u8>) -> bool {
    key == encode_utf8("USER"@) || key == encode_utf8("HOME"@) || key == encode_utf8("PATH"@)
}

/// The variables that a login does not set, in their order.
pub open spec fn kept_vars(vars: Seq<(Seq<u8>, Seq<u8>)>) -> Seq<(Seq<u8>, Seq<u8>)> {
    vars.filter(|var: (Seq<u8>, Seq<u8>)| !set_at_login(var.0))
}

/// The variables that a login sets.
pub open spec fn own_vars(identity: IdentityView) -> Seq<(Seq<u8>, Seq<u8>)> {
    seq![
        (encode_utf8("USER"@), identity.user),
        (encode_utf8("HOME"@), identity.home),
        (encode_utf8("PATH"@), encode_utf8(DEFAULT_PATH@)),
    ]
}

/// Append a variable.
fn push_var(vars: &mut Vec<(Vec<u8>, Vec<u8>)>, key: &str, value: &[u8])
    ensures
        vars_view(final(vars)@) == vars_view(old(vars)@).push((encode_utf8(key@), value@)),
{
    let key = vstd::slice::slice_to_vec(key.as_bytes());
    let value = vstd::slice::slice_to_vec(value);
    vars.push((key, value));
    assert(vars_view(vars@) =~= vars_view(old(vars)@).push((key@, value@)));
}

/// The environment `vars` as a login of `identity` leaves it: with the user's
/// name and home directory, and the default path.
pub fn login_vars(vars: &Vec<(Vec<u8>, Vec<u8>)>, identity: &Identity) -> (result: Vec<
    (Vec<u8>, Vec<u8>),
>)
    ensures
        vars_view(result@) == kept_vars(vars_view(vars@)) + own_vars(identity@),
{
    let ghost all = vars_view(vars@);
    let ghost keeps = |var: (Seq<u8>, Seq<u8>)| !set_at_login(var.0);
    let mut result: Vec<(Vec<u8>, Vec<u8>)> = Vec::new();
    let mut i: usize = 0;
    assert(vars_view(result@) =~= all.take(0).filter(keeps)) by {
        reveal(Seq::filter);
    }
    while i < vars.len()
        invariant
            i <= vars@.len(),
            all == vars_view(vars@),
            keeps == (|var: (Seq<u8>, Seq<u8>)| !set_at_login(var.0)),
            vars_view(result@) == all.take(i as int).filter(keeps),
        decreases vars@.len() - i,
    {
        let key = &vars[i].0;
        let value = &vars[i].1;
        let ghost before = vars_view(result@);
        assert(all.take(i + 1).drop_last() =~= all.take(i as int));
        assert(all.take(i + 1).last() == (key@, value@));
        let is_set = same_bytes(key.as_slice(), "USER".as_bytes()) || same_bytes(
            key.as_slice(),
            "HOME".as_bytes(),
        ) || same_bytes(key.as_slice(), "PATH".as_bytes());
        if !is_set {
            let copy = (key.clone(), value.clone());
            result.push(copy);
            assert(vars_view(result@) =~= before.push((key@, value@)));
        }
        assert(vars_view(result@) == all.take(i + 1).filter(keeps)) by {
            reveal(Seq::filter);
        }
        i += 1;
    }
    assert(all.take(i as int) =~= all);
    let ghost kept = vars_view(result@);
    push_var(&mut result, "USER", identity.user.as_slice());
    push_var(&mut result, "HOME", identity.home.bytes.as_slice());
    push_var(&mut result, "PATH", DEFAULT_PATH.as_bytes());
    assert(vars_view(result@) =~= kept + own_vars(identity@));
    result
}

/// Where a program is looked up: as it is where its name has a separator in
/// it, otherwise in each directory of `path` in turn.
pub open spec fn lookup(program: Seq<u8>, path: Seq<u8>) -> Seq<Seq<u8>> {
    if program.contains(SEPARATOR) {
        seq![program]
    } else {
        split(path, COLON).map_values(|dir: Seq<u8>| joined(dir, program))
    }
}

/// The paths in a list.
pub open spec fn paths_view(paths: Seq<FilePath>) -> Seq<Seq<u8>> {
    paths.map_values(|path: FilePath| path@)
}

/// Whether there is a separator among `bytes`.
fn has_separator(bytes: &[u8]) -> (found: bool)
    ensures
        found == bytes@.contains(SEPARATOR),
{
    let mut i: usize = 0;
    while i < bytes.len()
        invariant
            i <= bytes@.len(),
            forall|j: int| 0 <= j < i ==> bytes@[j] != SEPARATOR,
        decreases bytes@.len() - i,
    {
        if bytes[i] == SEPARATOR {
            return true;
        }
        i += 1;
    }
    false
}

/// The files to try, in this order, for a program that is looked up in `path`.
pub fn program_files(program: &str, path: &str) -> (files: Vec<FilePath>)
    ensures
        paths_view(files@) == lookup(encode_utf8(program@), encode_utf8(path@)),
{
    let mut files: Vec<FilePath> = Vec::new();
    if has_separator(program.as_bytes()) {
        files.push(FilePath::of_text(program));
        assert(paths_view(files@) =~= seq![encode_utf8(program@)]);
        return files;
    }
    let dirs = split_at(path.as_bytes(), COLON);
    let ghost all = lookup(encode_utf8(program@), encode_utf8(path@));
    let mut i: usize = 0;
    assert(paths_view(files@) =~= all.take(0));
    while i < dirs.len()
        invariant
            i <= dirs@.len(),
            !encode_utf8(program@).contains(SEPARATOR),
            entries_view(dirs@) == split(encode_utf8(path@), COLON),
            all == lookup(encode_utf8(program@), encode_utf8(path@)),
            paths_view(files@) == all.take(i as int),
        decreases dirs@.len() - i,
    {
        let dir = FilePath::new(dirs[i].clone());
        let file = dir.join(program);
        assert(split(encode_utf8(path@), COLON)[i as int] == dir@);
        let ghost before = paths_view(files@);
        files.push(file);
        assert(paths_view(files@) =~= before.push(file@));
        assert(all.take(i + 1) =~= all.take(i as int).push(all[i as int]));
        i += 1;
    }
    assert(all.take(i as int) =~= all);
    files
}

/// How a command is started.
#[derive(Debug, PartialEq, Eq)]
pub struct ExecPlan {
    /// The files to execute: the first that can be.
    pub programs: Vec<FilePath>,
    /// The environment, one `key=value` entry for each variable.
    pub env: Vec<Vec<u8>>,
    /// The directory to start in, where it is not the current one.
    pub dir: Option<FilePath>,
}

/// Plan how `program` is started. A command of a known user gets the user's
/// session: it starts in the home directory, with the user's environment, and
/// is looked up in the default path. Otherwise it is started where we are and
/// as it is named.
pub fn plan_command(
    program: &str,
    vars: &Vec<(Vec<u8>, Vec<u8>)>,
    identity: Option<&Identity>,
) -> (plan: ExecPlan)
    ensures
        match identity {
            None => {
                &&& paths_view(plan.programs@) == seq![encode_utf8(program@)]
                &&& entries_view(plan.env@) == command_env(vars_view(vars@))
                &&& plan.dir is None
            },
            Some(identity) => {
                &&& paths_view(plan.programs@) == lookup(
                    encode_utf8(program@),
                    encode_utf8(DEFAULT_PATH@),
                )
                &&& entries_view(plan.env@) == command_env(
                    kept_vars(vars_view(vars@)) + own_vars(identity@),
                )
                &&& plan.dir matches Some(dir) && dir@ == identity@.home
            },
        },
{
    match identity {
        None => {
            let programs: Vec<FilePath> = vec![FilePath::of_text(program)];
            assert(paths_view(programs@) =~= seq![encode_utf8(program@)]);
            ExecPlan { programs, env: build_env(vars), dir: None }
        },
        Some(identity) => {
            let session = login_vars(vars, identity);
            let env = build_env(&session);
            ExecPlan {
                programs: program_files(program, DEFAULT_PATH),
                env,
                dir: Some(identity.home.clone()),
            }
        },
    }
}

/// The names that a login sets are plain and distinct.
proof fn lemma_own_names()
    ensures
        !encode_utf8("USER"@).contains(0x3du8),
        !encode_utf8("HOME"@).contains(0x3du8),
        !encode_utf8("PATH"@).contains(0x3du8),
        !encode_utf8("USER"@).contains(0u8),
        !encode_utf8("HOME"@).contains(0u8),
        !encode_utf8("PATH"@).contains(0u8),
        !encode_utf8(DEFAULT_PATH@).contains(0u8),
        encode_utf8("USER"@) != encode_utf8("HOME"@),
        encode_utf8("USER"@) != encode_utf8("PATH"@),
        encode_utf8("HOME"@) != encode_utf8("PATH"@),
        !set_at_login(encode_utf8("TERM"@)),
{
    reveal_strlit("USER");
    reveal_strlit("HOME");
    reveal_strlit("PATH");
    reveal_strlit("TERM");
    reveal_strlit("/usr/local/sbin:/usr/local/bin:/usr/sbin:/usr/bin:/sbin:/bin");
    vstd::utf8::is_ascii_chars_encode_utf8("USER"@);
    vstd::utf8::is_ascii_chars_encode_utf8("HOME"@);
    vstd::utf8::is_ascii_chars_encode_utf8("PATH"@);
    vstd::utf8::is_ascii_chars_encode_utf8("TERM"@);
    vstd::utf8::is_ascii_chars_encode_utf8(DEFAULT_PATH@);
    assert(encode_utf8("USER"@)[0] == 0x55);
    assert(encode_utf8("HOME"@)[0] == 0x48);
    assert(encode_utf8("PATH"@)[0] == 0x50);
    assert(encode_utf8("TERM"@)[0] == 0x54);
}

/// A command of a user is told who it runs as: each of the user's name, the
/// home directory and the default path is in its environment, and no other
/// value for any of them (no variable has a `=` in its name).
pub proof fn law_session_has_the_users_identity(
    vars: Seq<(Seq<u8>, Seq<u8>)>,
    identity: IdentityView,
    j: int,
    i: int,
)
    requires
        forall|k: int| 0 <= k < vars.len() ==> !(#[trigger] vars[k]).0.contains(0x3du8),
        !identity.user.contains(0u8),
        !identity.home.contains(0u8),
        0 <= j < 3,
        0 <= i < command_env(kept_vars(vars) + own_vars(identity)).len(),
    ensures
        ({
            let env = command_env(kept_vars(vars) + own_vars(identity));
            let (key, value) = own_vars(identity)[j];
            env.contains(env_entry(key, value)) && (sets(env[i], key) ==> env[i] == env_entry(
                key,
                value,
            ))
        }),
{
    let keeps = |var: (Seq<u8>, Seq<u8>)| !set_at_login(var.0);
    let kept = kept_vars(vars);
    let own = own_vars(identity);
    let all = kept + own;
    let env = command_env(all);
    let (key, value) = own[j];
    lemma_own_names();
    lemma_own_entries(kept, identity);
    assert(env[handed_on_entries(kept).len() + j] == env_entry(key, value));
    if sets(env[i], key) {
        if i < handed_on_entries(all).len() {
            crate::server::lemma_entry_origin(all, i);
            let k = choose|k: int|
                #![trigger all[k]]
                0 <= k < all.len() && handed_on(all[k].0, all[k].1) && handed_on_entries(all)[i]
                    == env_entry(all[k].0, all[k].1);
            if k < kept.len() {
                assert(all[k] == kept[k]);
                vars.lemma_filter_pred(keeps, k);
                assert(kept.contains(kept[k]));
                vars.lemma_filter_contains_rev(keeps, kept[k]);
            } else {
                assert(all[k] == own[k - kept.len()]);
            }
            crate::server::lemma_sets_its_key(all[k].0, all[k].1, key);
        } else {
            let name = encode_utf8("TERM"@);
            let last = encode_utf8("TERM=xterm-256color"@);
            reveal_strlit("TERM");
            reveal_strlit("TERM=xterm-256color");
            vstd::utf8::is_ascii_chars_encode_utf8("TERM"@);
            vstd::utf8::is_ascii_chars_encode_utf8("TERM=xterm-256color"@);
            assert(last =~= env_entry(name, last.skip(5)));
            crate::server::lemma_sets_its_key(name, last.skip(5), key);
        }
    }
}

/// What a login sets is handed on, behind what it keeps.
proof fn lemma_own_entries(kept: Seq<(Seq<u8>, Seq<u8>)>, identity: IdentityView)
    requires
        !identity.user.contains(0u8),
        !identity.home.contains(0u8),
    ensures
        handed_on_entries(kept + own_vars(identity)) == handed_on_entries(kept)
            + own_vars(identity).map_values(|var: (Seq<u8>, Seq<u8>)| env_entry(var.0, var.1)),
{
    let own = own_vars(identity);
    lemma_own_names();
    lemma_no_nul(own[0].0, own[0].1);
    lemma_no_nul(own[1].0, own[1].1);
    lemma_no_nul(own[2].0, own[2].1);
    let one = kept.push(own[0]);
    let two = one.push(own[1]);
    let three = two.push(own[2]);
    assert(one.drop_last() =~= kept);
    assert(two.drop_last() =~= one);
    assert(three.drop_last() =~= two);
    assert(kept + own =~= three);
    assert(handed_on_entries(one) == handed_on_entries(kept).push(env_entry(own[0].0, own[0].1)));
    assert(handed_on_entries(two) == handed_on_entries(one).push(env_entry(own[1].0, own[1].1)));
    assert(handed_on_entries(three) == handed_on_entries(two).push(env_entry(own[2].0, own[2].1)));
}

/// An entry holds a NUL only where its variable does.
proof fn lemma_no_nul(key: Seq<u8>, value: Seq<u8>)
    requires
        !key.contains(0u8),
        !value.contains(0u8),
    ensures
        !env_entry(key, value).contains(0u8),
{
    let entry = env_entry(key, value);
    assert forall|i: int| 0 <= i < entry.len() implies entry[i] != 0 by {
        if i < key.len() {
            assert(key.contains(key[i]));
        } else if i > key.len() {
            assert(value.contains(value[i - key.len() - 1]));
        }
    }
}

/// Parts put together, with a separator between each two.
pub open spec fn join(parts: Seq<Seq<u8>>, separator: u8) -> Seq<u8>
    decreases parts.len(),
{
    if parts.len() == 0 {
        Seq::empty()
    } else if parts.len() == 1 {
        parts[0]
    } else {
        join(parts.drop_last(), separator).push(separator) + parts.last()
    }
}

/// Taking apart and putting together undo each other: the parts make up what was
/// taken apart, and none of them holds a separator; parts without a separator are
/// found again.
pub proof fn law_split_undoes_join(bytes: Seq<u8>, parts: Seq<Seq<u8>>, separator: u8)
    ensures
        split(bytes, separator).len() > 0,
        join(split(bytes, separator), separator) == bytes,
        forall|i: int|
            0 <= i < split(bytes, separator).len() ==> !(#[trigger] split(
                bytes,
                separator,
            )[i]).contains(separator),
        parts.len() > 0 && (forall|i: int|
            0 <= i < parts.len() ==> !(#[trigger] parts[i]).contains(separator)) ==> split(
            join(parts, separator),
            separator,
        ) == parts,
{
    lemma_join_of_split(bytes, separator);
    if parts.len() > 0 && (forall|i: int|
        0 <= i < parts.len() ==> !(#[trigger] parts[i]).contains(separator)) {
        lemma_split_of_join(parts, separator);
    }
}

/// The parts make up what was taken apart.
proof fn lemma_join_of_split(bytes: Seq<u8>, separator: u8)
    ensures
        split(bytes, separator).len() > 0,
        join(split(bytes, separator), separator) == bytes,
        forall|i: int|
            0 <= i < split(bytes, separator).len() ==> !(#[trigger] split(
                bytes,
                separator,
            )[i]).contains(separator),
    decreases bytes.len(),
{
    let parts = split(bytes, separator);
    if bytes.len() == 0 {
        assert(bytes =~= Seq::empty());
    } else {
        let before = split(bytes.drop_last(), separator);
        lemma_join_of_split(bytes.drop_last(), separator);
        if bytes.last() == separator {
            assert(parts.drop_last() =~= before);
            assert(join(parts, separator) =~= bytes);
        } else {
            let front = before.drop_last();
            let last = before.last().push(bytes.last());
            assert(parts.drop_last() =~= front);
            assert(parts.last() == last);
            assert(!before.last().contains(separator)) by {
                assert(before.last() == before[before.len() - 1]);
            }
            assert(!last.contains(separator)) by {
                if last.contains(separator) {
                    let j = choose|j: int| 0 <= j < last.len() && last[j] == separator;
                    assert(before.last()[j] == separator);
                }
            }
            assert forall|i: int| 0 <= i < parts.len() implies !(#[trigger] parts[i]).contains(
                separator,
            ) by {
                if i < front.len() {
                    assert(parts[i] == before[i]);
                }
            }
            assert(bytes =~= bytes.drop_last().push(bytes.last()));
            if front.len() == 0 {
                assert(join(before, separator) == before.last());
                assert(join(parts, separator) == last);
            } else {
                let begun = join(front, separator).push(separator);
                assert(join(before, separator) == begun + before.last());
                assert(join(parts, separator) == begun + last);
                assert(begun + last =~= (begun + before.last()).push(bytes.last()));
            }
        }
    }
}

/// Bytes without a separator extend the last part.
proof fn lemma_split_extends(bytes: Seq<u8>, more: Seq<u8>, separator: u8)
    requires
        !more.contains(separator),
    ensures
        split(bytes, separator).len() > 0,
        split(bytes + more, separator) == split(bytes, separator).drop_last().push(
            split(bytes, separator).last() + more,
        ),
    decreases more.len(),
{
    lemma_join_of_split(bytes, separator);
    let parts = split(bytes, separator);
    if more.len() == 0 {
        assert(bytes + more =~= bytes);
        assert(parts.last() + more =~= parts.last());
        assert(parts.drop_last().push(parts.last()) =~= parts);
    } else {
        let shorter = more.drop_last();
        assert(more.contains(more.last()));
        assert(!shorter.contains(separator)) by {
            if shorter.contains(separator) {
                let j = choose|j: int| 0 <= j < shorter.len() && shorter[j] == separator;
                assert(more[j] == separator);
            }
        }
        lemma_split_extends(bytes, shorter, separator);
        assert((bytes + more).drop_last() =~= bytes + shorter);
        let before = split(bytes + shorter, separator);
        assert(before.drop_last() =~= parts.drop_last());
        assert((parts.last() + shorter).push(more.last()) =~= parts.last() + more);
    }
}

/// Parts without a separator are found again.
proof fn lemma_split_of_join(parts: Seq<Seq<u8>>, separator: u8)
    requires
        parts.len() > 0,
        forall|i: int| 0 <= i < parts.len() ==> !(#[trigger] parts[i]).contains(separator),
    ensures
        split(join(parts, separator), separator) == parts,
    decreases parts.len(),
{
    if parts.len() == 1 {
        let nothing = Seq::<u8>::empty();
        lemma_split_extends(nothing, parts[0], separator);
        assert(nothing + parts[0] =~= parts[0]);
        assert(split(parts[0], separator) =~= parts);
    } else {
        let front = parts.drop_last();
        assert forall|i: int| 0 <= i < front.len() implies !(#[trigger] front[i]).contains(
            separator,
        ) by {
            assert(front[i] == parts[i]);
        }
        lemma_split_of_join(front, separator);
        let begun = join(front, separator).push(separator);
        assert(begun.drop_last() =~= join(front, separator));
        assert(split(begun, separator) == front.push(Seq::empty()));
        assert(parts.last() == parts[parts.len() - 1]);
        lemma_split_extends(begun, parts.last(), separator);
        assert(front.push(Seq::<u8>::empty()).drop_last() =~= front);
        assert(Seq::<u8>::empty() + parts.last() =~= parts.last());
        assert(front.push(parts.last()) =~= parts);
    }
}

/// A user is found by number: of a file in which no line in front is about the
/// user, the entry `name:password:number:group:comment:home:shell` gives the name
/// and the home directory, whatever the other fields and the lines behind it say.
pub proof fn law_user_is_found(
    front: Seq<Seq<u8>>,
    fields: Seq<Seq<u8>>,
    back: Seq<Seq<u8>>,
    uid: nat,
)
    requires
        first_entry(front, uid) is None,
        fields.len() == 7,
        forall|i: int| 0 <= i < 7 ==> !(#[trigger] fields[i]).contains(0x3a),
        fields[2] == encode_utf8(decimal(uid)),
    ensures
        first_entry(front + seq![join(fields, 0x3a)] + back, uid) == Some(
            IdentityView { user: fields[0], home: fields[5] },
        ),
    decreases front.len(),
{
    let line = join(fields, 0x3a);
    let lines = front + seq![line] + back;
    if front.len() == 0 {
        law_split_undoes_join(line, fields, 0x3a);
        assert(lines[0] == line);
    } else {
        assert(lines[0] == front[0]);
        assert(lines.skip(1) =~= front.skip(1) + seq![line] + back);
        law_user_is_found(front.skip(1), fields, back, uid);
    }
}

/// Nobody is made up: who is found stands in a line of seven fields whose third is
/// the user's number, and is described by the first and the sixth.
pub proof fn law_found_user_has_an_entry(lines: Seq<Seq<u8>>, uid: nat)
    ensures
        first_entry(lines, uid) matches Some(identity) ==> exists|i: int, fields: Seq<Seq<u8>>|
            0 <= i < lines.len() && fields.len() == 7 && #[trigger] lines[i] == #[trigger] join(
                fields,
                0x3a,
            ) && fields[2] == encode_utf8(decimal(uid)) && identity == (IdentityView {
                user: fields[0],
                home: fields[5],
            }),
    decreases lines.len(),
{
    if lines.len() > 0 {
        if is_entry_of(lines[0], uid) {
            let fields = split(lines[0], COLON);
            law_split_undoes_join(lines[0], fields, 0x3a);
            assert(lines[0] == join(fields, 0x3a));
        } else {
            let rest = lines.skip(1);
            law_found_user_has_an_entry(rest, uid);
            if let Some(identity) = first_entry(lines, uid) {
                let (i, fields) = choose|i: int, fields: Seq<Seq<u8>>|
                    0 <= i < rest.len() && fields.len() == 7 && #[trigger] rest[i]
                        == #[trigger] join(fields, 0x3a) && fields[2] == encode_utf8(decimal(uid))
                        && identity == (IdentityView { user: fields[0], home: fields[5] });
                assert(lines[i + 1] == rest[i]);
            }
        }
    }
}

/// A login sets the user's name, the home directory and the path, and nothing
/// else; variable by variable, every other one is kept as it is.
pub proof fn law_login_keeps_other_variables(
    front: Seq<(Seq<u8>, Seq<u8>)>,
    back: Seq<(Seq<u8>, Seq<u8>)>,
    key: Seq<u8>,
    value: Seq<u8>,
    identity: IdentityView,
)
    ensures
        kept_vars(front + back) == kept_vars(front) + kept_vars(back),
        kept_vars(Seq::empty()) == Seq::<(Seq<u8>, Seq<u8>)>::empty(),
        kept_vars(seq![(key, value)]) == (if key == encode_utf8("USER"@) || key == encode_utf8(
            "HOME"@,
        ) || key == encode_utf8("PATH"@) {
            Seq::empty()
        } else {
            seq![(key, value)]
        }),
        own_vars(identity).len() == 3,
        own_vars(identity)[0] == (encode_utf8("USER"@), identity.user),
        own_vars(identity)[1] == (encode_utf8("HOME"@), identity.home),
        own_vars(identity)[2] == (
            encode_utf8("PATH"@),
            encode_utf8("/usr/local/sbin:/usr/local/bin:/usr/sbin:/usr/bin:/sbin:/bin"@),
        ),
{
    let keeps = |var: (Seq<u8>, Seq<u8>)| !set_at_login(var.0);
    Seq::filter_distributes_over_add(front, back, keeps);
    reveal(Seq::filter);
    let one = seq![(key, value)];
    assert(one.drop_last() =~= Seq::empty());
    assert(one.drop_last().filter(keeps) =~= Seq::empty());
    assert(Seq::<(Seq<u8>, Seq<u8>)>::empty().filter(keeps) =~= Seq::empty());
    assert(kept_vars(one) =~= (if set_at_login(key) {
        Seq::empty()
    } else {
        one
    }));
}

/// A program is looked up in the directories of the path, in their order: in each
/// under its name, behind one separator. One whose name has a separator in it is not
/// looked up.
pub proof fn law_programs_are_looked_up(program: Seq<u8>, dirs: Seq<Seq<u8>>, path: Seq<u8>, i: int)
    requires
        dirs.len() > 0,
        forall|k: int| 0 <= k < dirs.len() ==> !(#[trigger] dirs[k]).contains(0x3a),
    ensures
        program.contains(0x2f) ==> lookup(program, path) == seq![program],
        !program.contains(0x2f) ==> lookup(program, join(dirs, 0x3a)).len() == dirs.len(),
        !program.contains(0x2f) && 0 <= i < dirs.len() ==> {
            let file = lookup(program, join(dirs, 0x3a))[i];
            file == (if dirs[i].len() == 0 || dirs[i].last() == 0x2f {
                dirs[i] + program
            } else {
                dirs[i] + seq![0x2fu8] + program
            })
        },
{
    law_split_undoes_join(path, dirs, 0x3a);
    if !program.contains(0x2f) && 0 <= i < dirs.len() {
        if program.len() > 0 {
            assert(program.contains(program[0]));
        }
        assert(joined(dirs[i], program) =~= (if dirs[i].len() == 0 || dirs[i].last() == 0x2f {
            dirs[i] + program
        } else {
            dirs[i] + seq![0x2fu8] + program
        }));
    }
}

} // verus!
