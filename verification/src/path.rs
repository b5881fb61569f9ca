//! File paths as the raw bytes that Unix takes them for.
use vstd::prelude::*;
use vstd::slice::slice_subrange;
use vstd::utf8::{decode_utf8, encode_utf8, valid_utf8};

verus! {

/// A path: any bytes, `/` between its parts.
#[derive(Debug, PartialEq, Eq)]
pub struct FilePath {
    pub bytes: Vec<u8>,
}

impl View for FilePath {
    type V = Seq<u8>;

    open spec fn view(&self) -> Seq<u8> {
        self.bytes@
    }
}

impl Clone for FilePath {
    fn clone(&self) -> (copy: Self)
        ensures
            copy@ == self@,
    {
        FilePath { bytes: self.bytes.clone() }
    }
}

/// The separator between the parts of a path.
pub const SEPARATOR: u8 = 0x2f;

/// The character that sets off an extension.
pub const DOT: u8 = 0x2e;

/// The text that stands for `bytes` where they are shown: what is no UTF-8 is
/// replaced.
pub uninterp spec fn lossy_text(bytes: Seq<u8>) -> Seq<char>;

/// `String::from_utf8_lossy`: the text of `bytes`, with replacement characters
/// for what is no UTF-8. Valid UTF-8 is decoded as it is; which replacement
/// characters stand for what else is left to the name.
#[verifier::external_body]
fn from_utf8_lossy(bytes: &[u8]) -> (text: String)
    ensures
        text@ == lossy_text(bytes@),
        valid_utf8(bytes@) ==> text@ == decode_utf8(bytes@),
{
    String::from_utf8_lossy(bytes).into_owned()
}

/// The path of `name` in the directory `dir`. An absolute name stands for
/// itself.
pub open spec fn joined(dir: Seq<u8>, name: Seq<u8>) -> Seq<u8> {
    if name.len() > 0 && name[0] == SEPARATOR {
        name
    } else if dir.len() == 0 || dir.last() == SEPARATOR {
        dir + name
    } else {
        dir.push(SEPARATOR) + name
    }
}

/// The position behind the last `byte` in `bytes`; zero where there is none.
pub open spec fn behind_last(bytes: Seq<u8>, byte: u8) -> int
    decreases bytes.len(),
{
    if bytes.len() == 0 {
        0
    } else if bytes.last() == byte {
        bytes.len() as int
    } else {
        behind_last(bytes.drop_last(), byte)
    }
}

/// The last part of a path that names a file: empty parts and `.` at the end
/// do not count, `..` is no name.
pub open spec fn file_name(path: Seq<u8>) -> Option<Seq<u8>>
    decreases path.len(),
{
    let start = behind_last(path, SEPARATOR);
    let part = path.skip(start);
    if part.len() == 0 || part == seq![DOT] {
        if 0 < start <= path.len() {
            file_name(path.take(start - 1))
        } else {
            None
        }
    } else if part == seq![DOT, DOT] {
        None
    } else {
        Some(part)
    }
}

/// What stands behind the last dot of a file's name, unless that dot is the
/// first character.
pub open spec fn extension(path: Seq<u8>) -> Option<Seq<u8>> {
    match file_name(path) {
        Some(name) => if behind_last(name, DOT) > 1 {
            Some(name.skip(behind_last(name, DOT)))
        } else {
            None
        },
        None => None,
    }
}

/// An ASCII letter in lower case; any other byte as it is.
pub open spec fn lower(byte: u8) -> u8 {
    if 0x41 <= byte <= 0x5a {
        (byte + 0x20) as u8
    } else {
        byte
    }
}

/// Whether two byte strings differ at most in the case of ASCII letters.
pub open spec fn same_letters(a: Seq<u8>, b: Seq<u8>) -> bool {
    a.len() == b.len() && forall|i: int| 0 <= i < a.len() ==> lower(#[trigger] a[i]) == lower(b[i])
}

/// Whether the extension of `path` is `wanted`, in whatever case.
pub open spec fn has_extension(path: Seq<u8>, wanted: Seq<u8>) -> bool {
    extension(path) matches Some(found) && same_letters(found, wanted)
}

/// Find the position behind the last `byte` in `bytes`.
fn find_behind_last(bytes: &[u8], byte: u8) -> (position: usize)
    ensures
        position == behind_last(bytes@, byte),
        position <= bytes@.len(),
{
    let mut len: usize = bytes.len();
    assert(bytes@.take(len as int) =~= bytes@);
    while len > 0 && bytes[len - 1] != byte
        invariant
            len <= bytes@.len(),
            behind_last(bytes@.take(len as int), byte) == behind_last(bytes@, byte),
        decreases len,
    {
        assert(bytes@.take(len as int).drop_last() =~= bytes@.take(len - 1));
        len -= 1;
    }
    assert(len > 0 ==> bytes@.take(len as int).last() == bytes@[len - 1]);
    len
}

/// The position behind the last `byte` is behind such a byte.
proof fn lemma_behind_last(bytes: Seq<u8>, byte: u8)
    ensures
        0 <= behind_last(bytes, byte) <= bytes.len(),
        behind_last(bytes, byte) > 0 ==> bytes[behind_last(bytes, byte) - 1] == byte,
        forall|i: int| behind_last(bytes, byte) <= i < bytes.len() ==> bytes[i] != byte,
    decreases bytes.len(),
{
    if bytes.len() > 0 && bytes.last() != byte {
        lemma_behind_last(bytes.drop_last(), byte);
        assert forall|i: int| behind_last(bytes, byte) <= i < bytes.len() implies bytes[i]
            != byte by {
            if i < bytes.len() - 1 {
                assert(bytes.drop_last()[i] == bytes[i]);
            }
        }
    }
}

/// Whether `a` and `b` differ at most in the case of ASCII letters.
fn eq_ignore_ascii_case(a: &[u8], b: &[u8]) -> (same: bool)
    ensures
        same == same_letters(a@, b@),
{
    if a.len() != b.len() {
        return false;
    }
    let mut i: usize = 0;
    while i < a.len()
        invariant
            i <= a@.len(),
            a@.len() == b@.len(),
            forall|j: int| 0 <= j < i ==> lower(#[trigger] a@[j]) == lower(b@[j]),
        decreases a@.len() - i,
    {
        if to_lower(a[i]) != to_lower(b[i]) {
            return false;
        }
        i += 1;
    }
    true
}

/// An ASCII letter in lower case; any other byte as it is.
fn to_lower(byte: u8) -> (result: u8)
    ensures
        result == lower(byte),
{
    if 0x41 <= byte && byte <= 0x5a {
        byte + 0x20
    } else {
        byte
    }
}

impl FilePath {
    /// A path of the given bytes.
    pub fn new(bytes: Vec<u8>) -> (path: Self)
        ensures
            path@ == bytes@,
    {
        FilePath { bytes }
    }

    /// A path written as text.
    pub fn of_text(text: &str) -> (path: Self)
        ensures
            path@ == encode_utf8(text@),
    {
        FilePath { bytes: vstd::slice::slice_to_vec(text.as_bytes()) }
    }

    /// The path of `name` in this directory.
    pub fn join(&self, name: &str) -> (path: Self)
        ensures
            path@ == joined(self@, encode_utf8(name@)),
    {
        let name = name.as_bytes();
        if name.len() > 0 && name[0] == SEPARATOR {
            return FilePath { bytes: vstd::slice::slice_to_vec(name) };
        }
        let mut bytes = self.bytes.clone();
        if bytes.len() > 0 && bytes[bytes.len() - 1] != SEPARATOR {
            bytes.push(SEPARATOR);
        }
        let ghost dir = bytes@;
        bytes.extend_from_slice(name);
        assert(bytes@ =~= dir + name@);
        FilePath { bytes }
    }

    /// The text that stands for the path where it is shown.
    pub fn display(&self) -> (text: String)
        ensures
            text@ == lossy_text(self@),
            valid_utf8(self@) ==> text@ == decode_utf8(self@),
    {
        from_utf8_lossy(self.bytes.as_slice())
    }

    /// The last part of the path that names a file.
    fn file_name(&self) -> (name: Option<&[u8]>)
        ensures
            name is Some <==> file_name(self@) is Some,
            name matches Some(name) ==> name@ == file_name(self@)->0,
    {
        let mut path: &[u8] = self.bytes.as_slice();
        loop
            invariant
                file_name(path@) == file_name(self@),
            decreases path@.len(),
        {
            let start = find_behind_last(path, SEPARATOR);
            let part = slice_subrange(path, start, path.len());
            assert(part@ =~= path@.skip(start as int));
            let is_dot = part.len() == 1 && part[0] == DOT;
            assert(is_dot <==> part@ =~= seq![DOT]);
            let is_parent = part.len() == 2 && part[0] == DOT && part[1] == DOT;
            assert(is_parent <==> part@ =~= seq![DOT, DOT]);
            if part.len() == 0 || is_dot {
                if start == 0 {
                    return None;
                }
                let shorter = slice_subrange(path, 0, start - 1);
                assert(shorter@ =~= path@.take(start - 1));
                path = shorter;
            } else if is_parent {
                return None;
            } else {
                return Some(part);
            }
        }
    }

    /// Whether the extension of the path is `wanted`, in whatever case.
    pub fn has_extension(&self, wanted: &str) -> (found: bool)
        ensures
            found == has_extension(self@, encode_utf8(wanted@)),
    {
        match self.file_name() {
            Some(name) => {
                let start = find_behind_last(name, DOT);
                if start > 1 {
                    let found = slice_subrange(name, start, name.len());
                    assert(found@ =~= name@.skip(start as int));
                    eq_ignore_ascii_case(found, wanted.as_bytes())
                } else {
                    false
                }
            },
            None => false,
        }
    }
}

/// The extension of a plain name with one dot in it.
pub(crate) proof fn lemma_plain_name(name: Seq<u8>, dot: int)
    requires
        0 < dot < name.len(),
        name[dot] == DOT,
        name[0] != DOT,
        forall|i: int| dot < i < name.len() ==> name[i] != DOT,
        forall|i: int| 0 <= i < name.len() ==> name[i] != SEPARATOR,
    ensures
        !name.contains(SEPARATOR),
        name != seq![DOT],
        extension(name) == Some(name.skip(dot + 1)),
{
    lemma_behind_last(name, SEPARATOR);
    lemma_behind_last(name, DOT);
    assert(name.skip(0) =~= name);
    assert(behind_last(name, SEPARATOR) == 0);
    assert(behind_last(name, DOT) == dot + 1);
    assert(seq![DOT][0] == DOT);
    assert(seq![DOT, DOT][0] == DOT);
}

/// A file put in a directory by a plain name is found under that name again,
/// whatever the directory: its extension is that of the name alone.
pub proof fn law_joined_keeps_the_name(dir: Seq<u8>, name: Seq<u8>)
    requires
        name.len() > 0,
        !name.contains(SEPARATOR),
        name != seq![DOT],
    ensures
        file_name(joined(dir, name)) == file_name(name),
        extension(joined(dir, name)) == extension(name),
{
    let path = joined(dir, name);
    let front = path.len() - name.len();
    assert(name.contains(name[0]));
    assert(path.skip(front) =~= name);
    assert(front > 0 ==> path[front - 1] == SEPARATOR);
    lemma_behind_last(path, SEPARATOR);
    lemma_behind_last(name, SEPARATOR);
    let start = behind_last(path, SEPARATOR);
    if start > front {
        assert(name[start - 1 - front] == SEPARATOR);
        assert(name.contains(SEPARATOR));
    }
    if behind_last(name, SEPARATOR) > 0 {
        assert(name.contains(SEPARATOR));
    }
    assert(name.skip(0) =~= name);
}

/// A name that does not begin with a separator is put behind the directory: the
/// path begins with the directory and ends with the name, and what stands between
/// them is one separator, unless the directory is empty or ends with one itself. A
/// name that begins with a separator stands alone.
pub proof fn law_joined_lies_in_the_directory(dir: Seq<u8>, name: Seq<u8>)
    ensures
        name.len() > 0 && name[0] == 0x2f ==> joined(dir, name) == name,
        name.len() == 0 || name[0] != 0x2f ==> {
            let path = joined(dir, name);
            let between = path.len() - dir.len() - name.len();
            &&& dir.is_prefix_of(path)
            &&& name.is_suffix_of(path)
            &&& between == (if dir.len() == 0 || dir.last() == 0x2f {
                0int
            } else {
                1int
            })
            &&& between == 1 ==> path[dir.len() as int] == 0x2f
        },
{
    let path = joined(dir, name);
    if name.len() == 0 || name[0] != 0x2f {
        assert(path.subrange(0, dir.len() as int) =~= dir);
        assert(path.subrange(path.len() - name.len(), path.len() as int) =~= name);
    }
}

/// Separators at the end of a path, and `.` behind them, do not count; `..` names
/// no file.
pub proof fn law_trailing_parts_do_not_count(path: Seq<u8>)
    ensures
        file_name(path.push(0x2f)) == file_name(path),
        file_name(path + seq![0x2f, 0x2e]) == file_name(path),
        file_name(path + seq![0x2f, 0x2e, 0x2e]) is None,
        file_name(Seq::<u8>::empty()) is None,
        extension(path.push(0x2f)) == extension(path),
        extension(path + seq![0x2f, 0x2e]) == extension(path),
        extension(path + seq![0x2f, 0x2e, 0x2e]) is None,
        extension(Seq::<u8>::empty()) is None,
{
    let slash = path.push(0x2f);
    assert(slash.skip(slash.len() as int).len() == 0);
    assert(slash.take(slash.len() - 1) =~= path);
    let dot = path + seq![0x2fu8, 0x2e];
    lemma_behind_last(dot, SEPARATOR);
    lemma_behind_is(dot, path.len() as int);
    assert(dot.skip(1int + path.len()) =~= seq![0x2eu8]);
    assert(dot.take(path.len() as int) =~= path);
    let dots = path + seq![0x2fu8, 0x2e, 0x2e];
    lemma_behind_is(dots, path.len() as int);
    assert(dots.skip(1int + path.len()) =~= seq![0x2eu8, 0x2e]);
    assert(seq![0x2eu8, 0x2e].len() == 2);
}

/// Where the last separator stands.
proof fn lemma_behind_is(path: Seq<u8>, at: int)
    requires
        0 <= at < path.len(),
        path[at] == SEPARATOR,
        forall|i: int| at < i < path.len() ==> path[i] != SEPARATOR,
    ensures
        behind_last(path, SEPARATOR) == at + 1,
{
    lemma_behind_last(path, SEPARATOR);
}

/// The extension of a file is what stands behind the last dot of its name,
/// wherever the file is; a dot in front of the whole name sets off none, and
/// without a dot there is none.
pub proof fn law_extension_is_behind_the_last_dot(dir: Seq<u8>, stem: Seq<u8>, ext: Seq<u8>)
    requires
        stem.len() > 0,
        !stem.contains(0x2f),
        !ext.contains(0x2f),
        !ext.contains(0x2e),
        stem.len() > 1 || ext.len() > 0 || stem[0] != 0x2e,
    ensures
        extension(stem.push(0x2e) + ext) == Some(ext),
        extension(joined(dir, stem.push(0x2e) + ext)) == Some(ext),
        ext.len() > 0 ==> extension(ext) is None && extension(joined(dir, ext)) is None,
        ext.len() > 0 ==> extension(seq![0x2eu8] + ext) is None && extension(
            joined(dir, seq![0x2eu8] + ext),
        ) is None,
{
    let name = stem.push(0x2e) + ext;
    let dot = stem.len() as int;
    assert(name[dot] == 0x2e);
    assert forall|i: int| dot < i < name.len() implies name[i] != DOT by {
        assert(ext[i - dot - 1] == name[i]);
        assert(ext.contains(ext[i - dot - 1]));
    }
    assert forall|i: int| 0 <= i < name.len() implies name[i] != SEPARATOR by {
        if i < dot {
            assert(stem.contains(stem[i]));
        } else if i > dot {
            assert(ext.contains(ext[i - dot - 1]));
        }
    }
    lemma_behind_last(name, SEPARATOR);
    lemma_behind_last(name, DOT);
    assert(name.skip(0) =~= name);
    assert(name.skip(dot + 1) =~= ext);
    assert(behind_last(name, DOT) == dot + 1);
    assert(name != seq![DOT]) by {
        assert(name.len() >= 2);
    }
    assert(name != seq![DOT, DOT]) by {
        if name.len() == 2 {
            assert(name[0] == stem[0]);
            if ext.len() > 0 {
                assert(stem.len() == 0 || ext.len() == 0);
            }
        }
    }
    law_joined_keeps_the_name(dir, name);
    if ext.len() > 0 {
        lemma_no_dot_inside(ext);
        law_joined_keeps_the_name(dir, ext);
        let hidden = seq![0x2eu8] + ext;
        assert forall|i: int| 0 < i < hidden.len() implies hidden[i] != DOT && hidden[i]
            != SEPARATOR by {
            assert(ext.contains(ext[i - 1]));
            assert(hidden[i] == ext[i - 1]);
        }
        lemma_no_dot_inside(hidden);
        law_joined_keeps_the_name(dir, hidden);
    }
}

/// A plain name with no dot but maybe in front has no extension.
proof fn lemma_no_dot_inside(name: Seq<u8>)
    requires
        name.len() > 0,
        forall|i: int| 0 < i < name.len() ==> name[i] != DOT && name[i] != SEPARATOR,
        name[0] != SEPARATOR,
        name.len() > 1 || name[0] != DOT,
    ensures
        extension(name) is None,
        !name.contains(SEPARATOR),
        name != seq![DOT],
{
    lemma_behind_last(name, SEPARATOR);
    lemma_behind_last(name, DOT);
    assert(name.skip(0) =~= name);
    assert(seq![DOT, DOT][1] == DOT);
    assert(seq![DOT].len() == 1 && seq![DOT][0] == DOT);
    assert(name != seq![DOT, DOT]) by {
        if name.len() == 2 {
            assert(name[1] != DOT);
        }
    }
}

/// An extension is compared letter by letter, and only the case of ASCII letters
/// is ignored.
pub proof fn law_only_the_case_is_ignored(path: Seq<u8>, wanted: Seq<u8>)
    ensures
        has_extension(path, wanted) <==> (extension(path) matches Some(found) && found.len()
            == wanted.len() && forall|i: int|
            0 <= i < found.len() ==> {
                let a = #[trigger] found[i];
                let b = wanted[i];
                a == b || 0x41 <= a <= 0x5a && b == a + 0x20 || 0x41 <= b <= 0x5a && a == b + 0x20
            }),
{
    if let Some(found) = extension(path) {
        if has_extension(path, wanted) {
            assert forall|i: int| 0 <= i < found.len() implies {
                let a = #[trigger] found[i];
                let b = wanted[i];
                a == b || 0x41 <= a <= 0x5a && b == a + 0x20 || 0x41 <= b <= 0x5a && a == b + 0x20
            } by {
                assert(lower(found[i]) == lower(wanted[i]));
            }
        }
    }
}

/// The names `.` and `..` have no extension, wherever they stand alone.
pub proof fn law_dots_have_no_extension()
    ensures
        extension(seq![0x2eu8]) is None,
        extension(seq![0x2eu8, 0x2e]) is None,
{
    let dot = seq![0x2eu8];
    let dots = seq![0x2eu8, 0x2e];
    lemma_behind_last(dot, SEPARATOR);
    lemma_behind_last(dots, SEPARATOR);
    assert(dot.skip(0) =~= dot);
    assert(dots.skip(0) =~= dots);
    assert(dot == seq![DOT]);
    assert(dots == seq![DOT, DOT]);
    assert(dots.len() == 2);
}

} // verus!
