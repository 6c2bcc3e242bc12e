//! Directory listing: the records a listing is made of, their sort order,
//! and the short- and long-format rendering, byte for byte.

use vstd::prelude::*;
use crate::text::push_char;
use crate::text::spec_dec;
use crate::text::spec_lower;
use crate::text::u64_to_string;
use crate::text::u128_to_string;
use crate::text::to_lower;
use crate::text::str_eq;
use crate::text::str_to_chars;

verus! {

/// The kind of a listed entry. A regular file with any execute bit set is
/// `Executable`, which matters to the classify suffix only, never to the
/// type character.
#[derive(Debug, Clone, Copy, PartialEq, Eq, Structural)]
pub enum FileKind {
    File,
    Executable,
    Directory,
    Symlink,
    CharDevice,
    BlockDevice,
    Socket,
    Pipe,
}

/// One listed entry. The metadata fields are filled only for long-format
/// listings; `permissions` stays empty otherwise. `blocks` counts 512-byte
/// blocks, for the `total` line.
#[derive(Debug, Clone, PartialEq)]
pub struct FileInfo {
    pub name: String,
    pub kind: FileKind,
    pub full_path: String,
    pub permissions: String,
    pub has_xattr: bool,
    pub user: String,
    pub group: String,
    pub permission_bits: usize,
    pub device: u64,
    pub rdev: u64,
    pub symlink_target: Option<String>,
    pub links: u64,
    pub size: u64,
    pub blocks: u64,
    pub modified_time: String,
}

/// One requested directory (or plain path) and the entries found in it.
#[derive(Debug, Clone, PartialEq)]
pub struct Directory {
    pub name: String,
    pub file_content: Vec<FileInfo>,
}

/// The kind an entry's (unfollowed) metadata gives it, in the usual
/// priority order; a plain file counts as executable when any execute bit
/// is set.
pub open spec fn spec_classify(
    is_dir: bool,
    is_symlink: bool,
    is_char: bool,
    is_block: bool,
    is_fifo: bool,
    is_socket: bool,
    any_exec_bit: bool,
) -> FileKind {
    if is_dir {
        FileKind::Directory
    } else if is_symlink {
        FileKind::Symlink
    } else if is_char {
        FileKind::CharDevice
    } else if is_block {
        FileKind::BlockDevice
    } else if is_fifo {
        FileKind::Pipe
    } else if is_socket {
        FileKind::Socket
    } else if any_exec_bit {
        FileKind::Executable
    } else {
        FileKind::File
    }
}

/// Classifies an entry from its metadata flags.
pub fn classify_kind(
    is_dir: bool,
    is_symlink: bool,
    is_char: bool,
    is_block: bool,
    is_fifo: bool,
    is_socket: bool,
    any_exec_bit: bool,
) -> (r: FileKind)
    ensures
        r == spec_classify(is_dir, is_symlink, is_char, is_block, is_fifo, is_socket, any_exec_bit),
{
    if is_dir {
        FileKind::Directory
    } else if is_symlink {
        FileKind::Symlink
    } else if is_char {
        FileKind::CharDevice
    } else if is_block {
        FileKind::BlockDevice
    } else if is_fifo {
        FileKind::Pipe
    } else if is_socket {
        FileKind::Socket
    } else if any_exec_bit {
        FileKind::Executable
    } else {
        FileKind::File
    }
}

/// The long-format type character of a kind.
pub open spec fn spec_type_char(kind: FileKind) -> char {
    match kind {
        FileKind::Directory => 'd',
        FileKind::Symlink => 'l',
        FileKind::CharDevice => 'c',
        FileKind::BlockDevice => 'b',
        FileKind::Socket => 's',
        FileKind::Pipe => 'p',
        _ => '-',
    }
}

/// The type character a long-format row starts with.
pub fn file_type_char(kind: &FileKind) -> (r: char)
    ensures
        r == spec_type_char(*kind),
{
    match kind {
        FileKind::Directory => 'd',
        FileKind::Symlink => 'l',
        FileKind::CharDevice => 'c',
        FileKind::BlockDevice => 'b',
        FileKind::Socket => 's',
        FileKind::Pipe => 'p',
        _ => '-',
    }
}

/// The classify suffix of a kind: `/` directory, `*` executable, `=`
/// socket, `|` pipe, nothing else (symlinks carry an arrow in long format
/// instead).
pub open spec fn spec_classify_suffix(kind: FileKind) -> Seq<char> {
    match kind {
        FileKind::Directory => "/"@,
        FileKind::Executable => "*"@,
        FileKind::Socket => "="@,
        FileKind::Pipe => "|"@,
        _ => ""@,
    }
}

/// The classify suffix appended to a name when `-F` is given.
pub fn add_classify_syntax(kind: &FileKind) -> (r: &'static str)
    ensures
        r@ == spec_classify_suffix(*kind),
{
    match kind {
        FileKind::Directory => "/",
        FileKind::Executable => "*",
        FileKind::Socket => "=",
        FileKind::Pipe => "|",
        _ => "",
    }
}

/// The nine-character permission string of a mode: `rwx` triples for
/// owner, group and others, with setuid and setgid shown as `s`/`S` in the
/// execute slot of owner and group, and the sticky bit as `t`/`T` in the
/// execute slot of others.
pub open spec fn spec_perm_string(mode: u32) -> Seq<char> {
    seq![
        if mode & 0o400 != 0 {
            'r'
        } else {
            '-'
        },
        if mode & 0o200 != 0 {
            'w'
        } else {
            '-'
        },
        if mode & 0o4000 != 0 {
            if mode & 0o100 != 0 {
                's'
            } else {
                'S'
            }
        } else {
            if mode & 0o100 != 0 {
                'x'
            } else {
                '-'
            }
        },
        if mode & 0o040 != 0 {
            'r'
        } else {
            '-'
        },
        if mode & 0o020 != 0 {
            'w'
        } else {
            '-'
        },
        if mode & 0o2000 != 0 {
            if mode & 0o010 != 0 {
                's'
            } else {
                'S'
            }
        } else {
            if mode & 0o010 != 0 {
                'x'
            } else {
                '-'
            }
        },
        if mode & 0o004 != 0 {
            'r'
        } else {
            '-'
        },
        if mode & 0o002 != 0 {
            'w'
        } else {
            '-'
        },
        if mode & 0o1000 != 0 {
            if mode & 0o001 != 0 {
                't'
            } else {
                'T'
            }
        } else {
            if mode & 0o001 != 0 {
                'x'
            } else {
                '-'
            }
        },
    ]
}

/// Builds the nine-character permission string of `mode`.
#[verifier::rlimit(50)]
pub fn build_unix_permission_string(mode: u32) -> (r: String)
    ensures
        r@ == spec_perm_string(mode),
{
    let mut s = String::new();
    push_char(&mut s, if mode & 0o400 != 0 { 'r' } else { '-' });
    push_char(&mut s, if mode & 0o200 != 0 { 'w' } else { '-' });
    if mode & 0o4000 != 0 {
        push_char(&mut s, if mode & 0o100 != 0 { 's' } else { 'S' });
    } else {
        push_char(&mut s, if mode & 0o100 != 0 { 'x' } else { '-' });
    }
    push_char(&mut s, if mode & 0o040 != 0 { 'r' } else { '-' });
    push_char(&mut s, if mode & 0o020 != 0 { 'w' } else { '-' });
    if mode & 0o2000 != 0 {
        push_char(&mut s, if mode & 0o010 != 0 { 's' } else { 'S' });
    } else {
        push_char(&mut s, if mode & 0o010 != 0 { 'x' } else { '-' });
    }
    push_char(&mut s, if mode & 0o004 != 0 { 'r' } else { '-' });
    push_char(&mut s, if mode & 0o002 != 0 { 'w' } else { '-' });
    if mode & 0o1000 != 0 {
        push_char(&mut s, if mode & 0o001 != 0 { 't' } else { 'T' });
    } else {
        push_char(&mut s, if mode & 0o001 != 0 { 'x' } else { '-' });
    }
    proof {
        assert(s@ =~= spec_perm_string(mode));
    }
    s
}

/// The device major number, as the platform packs it into a device id.
pub open spec fn spec_major(dev: u64) -> u64 {
    ((dev & 0x00000000000fff00) >> 8) | ((dev & 0xfffff00000000000) >> 32)
}

/// The device minor number, as the platform packs it into a device id.
pub open spec fn spec_minor(dev: u64) -> u64 {
    (dev & 0x00000000000000ff) | ((dev & 0x00000ffffff00000) >> 12)
}

/// Relies on libc's `major` and `minor`: each extracts fixed bit fields of
/// the device id, exactly as `spec_major` and `spec_minor` state them.
#[verifier::external_body]
fn extract_major_minor(dev: u64) -> (r: (usize, usize))
    ensures
        r.0 as u64 == spec_major(dev),
        r.1 as u64 == spec_minor(dev),
{
    (libc::major(dev) as usize, libc::minor(dev) as usize)
}

/// Whether a kind prints a `major, minor` pair instead of a byte size.
pub open spec fn spec_is_device(kind: FileKind) -> bool {
    kind == FileKind::CharDevice || kind == FileKind::BlockDevice
}

/// The `major, minor` text a device entry shows in the size column.
pub open spec fn spec_device_str(rdev: u64) -> Seq<char> {
    spec_dec(spec_major(rdev) as nat) + ", "@ + spec_dec(spec_minor(rdev) as nat)
}

fn device_str(rdev: u64) -> (r: String)
    ensures
        r@ == spec_device_str(rdev),
{
    let (major, minor) = extract_major_minor(rdev);
    let mut s = u64_to_string(major as u64);
    s.append(", ");
    let m = u64_to_string(minor as u64);
    s.append(m.as_str());
    s
}

/// `n` spaces.
pub open spec fn spec_spaces(n: nat) -> Seq<char> {
    Seq::new(n, |i: int| ' ')
}

/// `s`, padded on the left with spaces to width `w` (unchanged when
/// already that wide).
pub open spec fn spec_pad_left(s: Seq<char>, w: nat) -> Seq<char> {
    if s.len() >= w {
        s
    } else {
        spec_spaces((w - s.len()) as nat) + s
    }
}

/// `s`, padded on the right with spaces to width `w`.
pub open spec fn spec_pad_right(s: Seq<char>, w: nat) -> Seq<char> {
    if s.len() >= w {
        s
    } else {
        s + spec_spaces((w - s.len()) as nat)
    }
}

fn spaces(n: usize) -> (r: String)
    ensures
        r@ == spec_spaces(n as nat),
{
    let mut s = String::new();
    let mut i: usize = 0;
    while i < n
        invariant
            i <= n,
            s@ == spec_spaces(i as nat),
        decreases n - i,
    {
        push_char(&mut s, ' ');
        assert(s@ =~= spec_spaces((i + 1) as nat));
        i = i + 1;
    }
    s
}

fn pad_left(s: &String, w: usize) -> (r: String)
    ensures
        r@ == spec_pad_left(s@, w as nat),
{
    let len = s.as_str().unicode_len();
    if len >= w {
        s.clone()
    } else {
        let mut r = spaces(w - len);
        r.append(s.as_str());
        r
    }
}

fn pad_right(s: &String, w: usize) -> (r: String)
    ensures
        r@ == spec_pad_right(s@, w as nat),
{
    let len = s.as_str().unicode_len();
    if len >= w {
        s.clone()
    } else {
        let mut r = s.clone();
        let sp = spaces(w - len);
        r.append(sp.as_str());
        r
    }
}

/// Whether `name` stays in a listing: hidden names (those starting with a
/// dot) are kept only when `is_all` is set.
pub fn keep_entry(is_all: bool, name: &str) -> (r: bool)
    ensures
        r == (is_all || !(name@.len() > 0 && name@[0] == '.')),
{
    if is_all {
        true
    } else {
        let n = name.unicode_len();
        if n > 0 && name.get_char(0) == '.' {
            false
        } else {
            true
        }
    }
}


/// The sort rank of a name: `.` first, `..` second, everything else after.
pub open spec fn spec_rank(name: Seq<char>) -> int {
    if name == "."@ {
        0
    } else if name == ".."@ {
        1
    } else {
        2
    }
}

/// Lexicographic order on character sequences, by character code; a prefix
/// comes before every extension of it.
pub open spec fn lex_le(a: Seq<char>, b: Seq<char>) -> bool
    decreases a.len(),
{
    if a.len() == 0 {
        true
    } else if b.len() == 0 {
        false
    } else if a[0] == b[0] {
        lex_le(a.drop_first(), b.drop_first())
    } else {
        (a[0] as u32) < (b[0] as u32)
    }
}

/// The listing order: `.` first, `..` second, then names compared
/// case-insensitively (ASCII), lexicographically.
pub open spec fn ls_le(a: FileInfo, b: FileInfo) -> bool {
    spec_rank(a.name@) < spec_rank(b.name@) || (spec_rank(a.name@) == spec_rank(b.name@) && lex_le(
        spec_lower(a.name@),
        spec_lower(b.name@),
    ))
}

/// Any two character sequences are ordered one way or the other.
pub proof fn lemma_lex_le_total(a: Seq<char>, b: Seq<char>)
    ensures
        lex_le(a, b) || lex_le(b, a),
    decreases a.len(),
{
    if a.len() == 0 {
    } else if b.len() == 0 {
    } else if a[0] == b[0] {
        lemma_lex_le_total(a.drop_first(), b.drop_first());
    } else {
        let ua = a[0] as u32;
        let ub = b[0] as u32;
        if ua == ub {
            vstd::utf8::char_u32_cast(a[0], ua);
            vstd::utf8::char_u32_cast(b[0], ub);
        }
        assert(ua != ub);
    }
}

/// Lexicographic order is transitive.
pub proof fn lemma_lex_le_trans(a: Seq<char>, b: Seq<char>, c: Seq<char>)
    requires
        lex_le(a, b),
        lex_le(b, c),
    ensures
        lex_le(a, c),
    decreases a.len(),
{
    if a.len() == 0 {
    } else if b.len() == 0 {
    } else if c.len() == 0 {
    } else if a[0] == b[0] && b[0] == c[0] {
        lemma_lex_le_trans(a.drop_first(), b.drop_first(), c.drop_first());
    }
}

/// Any two entries are ordered one way or the other.
pub proof fn lemma_ls_le_total(a: FileInfo, b: FileInfo)
    ensures
        ls_le(a, b) || ls_le(b, a),
{
    lemma_lex_le_total(spec_lower(a.name@), spec_lower(b.name@));
}

/// The listing order is transitive.
pub proof fn lemma_ls_le_trans(a: FileInfo, b: FileInfo, c: FileInfo)
    requires
        ls_le(a, b),
        ls_le(b, c),
    ensures
        ls_le(a, c),
{
    if spec_rank(a.name@) == spec_rank(b.name@) && spec_rank(b.name@) == spec_rank(c.name@) {
        lemma_lex_le_trans(spec_lower(a.name@), spec_lower(b.name@), spec_lower(c.name@));
    }
}

fn lex_le_exec(a: &String, b: &String) -> (r: bool)
    ensures
        r == lex_le(a@, b@),
{
    let av = str_to_chars(a.as_str());
    let bv = str_to_chars(b.as_str());
    let mut i: usize = 0;
    proof {
        assert(a@.subrange(0, a@.len() as int) =~= a@);
        assert(b@.subrange(0, b@.len() as int) =~= b@);
    }
    loop
        invariant
            av@ == a@,
            bv@ == b@,
            i <= av@.len(),
            i <= bv@.len(),
            lex_le(a@, b@) == lex_le(
                a@.subrange(i as int, a@.len() as int),
                b@.subrange(i as int, b@.len() as int),
            ),
        decreases av@.len() - i,
    {
        if i == av.len() {
            return true;
        }
        if i == bv.len() {
            return false;
        }
        let ca = av[i];
        let cb = bv[i];
        proof {
            let sa = a@.subrange(i as int, a@.len() as int);
            let sb = b@.subrange(i as int, b@.len() as int);
            assert(sa[0] == ca);
            assert(sb[0] == cb);
            assert(sa.drop_first() =~= a@.subrange(i + 1, a@.len() as int));
            assert(sb.drop_first() =~= b@.subrange(i + 1, b@.len() as int));
        }
        if ca == cb {
            i = i + 1;
        } else {
            return (ca as u32) < (cb as u32);
        }
    }
}

fn rank_exec(name: &String) -> (r: u64)
    ensures
        r as int == spec_rank(name@),
{
    if str_eq(name.as_str(), ".") {
        0
    } else if str_eq(name.as_str(), "..") {
        1
    } else {
        2
    }
}

fn ls_le_exec(a: &FileInfo, b: &FileInfo) -> (r: bool)
    ensures
        r == ls_le(*a, *b),
{
    let ra = rank_exec(&a.name);
    let rb = rank_exec(&b.name);
    if ra < rb {
        true
    } else if ra > rb {
        false
    } else {
        let la = to_lower(a.name.as_str());
        let lb = to_lower(b.name.as_str());
        lex_le_exec(&la, &lb)
    }
}

/// `x` inserted into `sorted` from the right, after every element that
/// compares at or below it (so equal elements keep their old order).
pub open spec fn spec_insert_sorted(sorted: Seq<FileInfo>, x: FileInfo) -> Seq<FileInfo>
    decreases sorted.len(),
{
    if sorted.len() == 0 {
        seq![x]
    } else if ls_le(sorted.last(), x) {
        sorted.push(x)
    } else {
        spec_insert_sorted(sorted.drop_last(), x).push(sorted.last())
    }
}

/// The listing's insertion sort, element by element.
pub open spec fn spec_sort(s: Seq<FileInfo>) -> Seq<FileInfo>
    decreases s.len(),
{
    if s.len() == 0 {
        Seq::empty()
    } else {
        spec_insert_sorted(spec_sort(s.drop_last()), s.last())
    }
}

/// Inserting into a sorted sequence keeps it sorted, adds exactly the new
/// element, and grows it by one.
pub proof fn lemma_insert_sorted_ensures(sorted: Seq<FileInfo>, x: FileInfo)
    requires
        vstd::relations::sorted_by(sorted, |a: FileInfo, b: FileInfo| ls_le(a, b)),
    ensures
        vstd::relations::sorted_by(
            spec_insert_sorted(sorted, x),
            |a: FileInfo, b: FileInfo| ls_le(a, b),
        ),
        spec_insert_sorted(sorted, x).to_multiset() == sorted.to_multiset().insert(x),
        spec_insert_sorted(sorted, x).len() == sorted.len() + 1,
    decreases sorted.len(),
{
    broadcast use vstd::seq_lib::group_to_multiset_ensures;
    broadcast use vstd::multiset::group_multiset_axioms;

    let leq = |a: FileInfo, b: FileInfo| ls_le(a, b);
    if sorted.len() == 0 {
        assert(sorted =~= Seq::<FileInfo>::empty());
        assert(seq![x] =~= Seq::<FileInfo>::empty().push(x));
        assert(Seq::<FileInfo>::empty().push(x).to_multiset() =~= Seq::<
            FileInfo,
        >::empty().to_multiset().insert(x));
    } else if ls_le(sorted.last(), x) {
        let res = sorted.push(x);
        assert forall|i: int, j: int| 0 <= i < j < res.len() implies #[trigger] leq(
            res[i],
            res[j],
        ) by {
            if j < sorted.len() {
                assert(leq(sorted[i], sorted[j]));
            } else {
                if i < sorted.len() - 1 {
                    assert(leq(sorted[i], sorted[sorted.len() - 1]));
                    lemma_ls_le_trans(sorted[i], sorted[sorted.len() - 1], x);
                }
            }
        }
    } else {
        lemma_ls_le_total(sorted.last(), x);
        let prefix = sorted.drop_last();
        assert forall|i: int, j: int| 0 <= i < j < prefix.len() implies #[trigger] leq(
            prefix[i],
            prefix[j],
        ) by {
            assert(leq(sorted[i], sorted[j]));
        }
        lemma_insert_sorted_ensures(prefix, x);
        let inner = spec_insert_sorted(prefix, x);
        let res = inner.push(sorted.last());
        assert(sorted =~= prefix.push(sorted.last()));
        assert(sorted.to_multiset() == prefix.to_multiset().insert(sorted.last()));
        assert(res.to_multiset() == inner.to_multiset().insert(sorted.last()));
        assert(res.to_multiset() =~= sorted.to_multiset().insert(x));
        assert forall|i: int, j: int| 0 <= i < j < res.len() implies #[trigger] leq(
            res[i],
            res[j],
        ) by {
            if j < inner.len() {
                assert(leq(inner[i], inner[j]));
            } else {
                // res[j] is the old last element; every element of inner is
                // either x or an element of the prefix, and both compare
                // at or below it.
                let e = inner[i];
                assert(inner.contains(e));
                assert(inner.to_multiset().count(e) > 0);
                if e == x {
                    assert(leq(x, sorted.last()));
                } else {
                    assert(prefix.to_multiset().count(e) > 0);
                    assert(prefix.contains(e));
                    let k = choose|k: int| 0 <= k < prefix.len() && prefix[k] == e;
                    assert(leq(sorted[k], sorted[sorted.len() - 1]));
                }
            }
        }
    }
}

/// The listing sort yields a sorted permutation: `.` first, `..` second,
/// then the remaining names in case-insensitive lexicographic order, with
/// exactly the entries that went in.
pub proof fn lemma_sort_ensures(s: Seq<FileInfo>)
    ensures
        vstd::relations::sorted_by(spec_sort(s), |a: FileInfo, b: FileInfo| ls_le(a, b)),
        spec_sort(s).to_multiset() == s.to_multiset(),
        spec_sort(s).len() == s.len(),
    decreases s.len(),
{
    broadcast use vstd::seq_lib::group_to_multiset_ensures;
    broadcast use vstd::multiset::group_multiset_axioms;

    if s.len() == 0 {
        assert(spec_sort(s) =~= Seq::<FileInfo>::empty());
    } else {
        lemma_sort_ensures(s.drop_last());
        lemma_insert_sorted_ensures(spec_sort(s.drop_last()), s.last());
        assert(s =~= s.drop_last().push(s.last()));
        assert(s.to_multiset() == s.drop_last().to_multiset().insert(s.last()));
    }
}

/// `spec_insert_sorted` places `x` at the position the scan found: every
/// element from there on compares strictly above `x`, the one before (if
/// any) at or below it.
proof fn lemma_insert_at(sorted: Seq<FileInfo>, x: FileInfo, idx: int)
    requires
        0 <= idx <= sorted.len(),
        forall|k: int| idx <= k < sorted.len() ==> !ls_le(#[trigger] sorted[k], x),
        idx > 0 ==> ls_le(sorted[idx - 1], x),
    ensures
        spec_insert_sorted(sorted, x) == sorted.insert(idx, x),
    decreases sorted.len(),
{
    if sorted.len() == 0 {
        assert(seq![x] =~= sorted.insert(0, x));
    } else if idx == sorted.len() {
        assert(ls_le(sorted.last(), x));
        assert(sorted.push(x) =~= sorted.insert(idx, x));
    } else {
        assert(!ls_le(sorted[sorted.len() - 1], x));
        let prefix = sorted.drop_last();
        assert forall|k: int| idx <= k < prefix.len() implies !ls_le(#[trigger] prefix[k], x) by {
            assert(!ls_le(sorted[k], x));
        }
        if idx > 0 {
            assert(prefix[idx - 1] == sorted[idx - 1]);
        }
        lemma_insert_at(prefix, x, idx);
        assert(prefix.insert(idx, x).push(sorted.last()) =~= sorted.insert(idx, x));
    }
}

/// Sorts a listing's entries: `.` first, `..` second, the rest
/// case-insensitively by name, ties keeping their input order.
pub fn sort_entries(entries: Vec<FileInfo>) -> (r: Vec<FileInfo>)
    ensures
        r@ == spec_sort(entries@),
        vstd::relations::sorted_by(r@, |a: FileInfo, b: FileInfo| ls_le(a, b)),
        r@.to_multiset() == entries@.to_multiset(),
{
    proof {
        lemma_sort_ensures(entries@);
    }
    let ghost orig = entries@;
    let mut src = entries;
    let mut out: Vec<FileInfo> = Vec::new();
    proof {
        assert(orig.subrange(0, 0int) =~= Seq::<FileInfo>::empty());
        assert(src@ =~= orig.subrange(0, orig.len() as int));
    }
    while src.len() > 0
        invariant
            src@.len() <= orig.len(),
            src@ == orig.subrange(orig.len() - src@.len(), orig.len() as int),
            out@ == spec_sort(orig.subrange(0, orig.len() - src@.len())),
        decreases src@.len(),
    {
        let ghost consumed = orig.len() - src@.len();
        let x = src.remove(0);
        proof {
            assert(x == orig[consumed as int]);
            assert(src@ =~= orig.subrange(consumed as int + 1, orig.len() as int));
        }
        let ghost out0 = out@;
        let mut idx: usize = out.len();
        loop
            invariant
                idx <= out@.len(),
                out@ == out0,
                forall|k: int| idx <= k < out@.len() ==> !ls_le(#[trigger] out@[k], x),
            ensures
                idx <= out@.len(),
                out@ == out0,
                forall|k: int| idx <= k < out@.len() ==> !ls_le(#[trigger] out@[k], x),
                idx == 0 || ls_le(out@[idx - 1], x),
            decreases idx,
        {
            if idx == 0 {
                break;
            }
            if ls_le_exec(&out[idx - 1], &x) {
                break;
            }
            idx = idx - 1;
        }
        proof {
            lemma_insert_at(out@, x, idx as int);
        }
        out.insert(idx, x);
        proof {
            let prefix = orig.subrange(0, consumed as int);
            let extended = orig.subrange(0, consumed as int + 1);
            assert(extended.drop_last() =~= prefix);
            assert(extended.last() == orig[consumed as int]);
            assert(out@ == spec_insert_sorted(out0, x));
            assert(out@ == spec_sort(extended));
        }
    }
    proof {
        assert(orig.subrange(0, orig.len() as int) =~= orig);
    }
    out
}


fn is_device_kind(k: &FileKind) -> (r: bool)
    ensures
        r == spec_is_device(*k),
{
    match k {
        FileKind::CharDevice => true,
        FileKind::BlockDevice => true,
        _ => false,
    }
}

/// The widest decimal link count among `es`.
pub open spec fn spec_max_links(es: Seq<FileInfo>) -> nat
    decreases es.len(),
{
    if es.len() == 0 {
        0
    } else {
        let rest = spec_max_links(es.drop_last());
        let w = spec_dec(es.last().links as nat).len();
        if w > rest {
            w
        } else {
            rest
        }
    }
}

/// The widest owner name among `es`.
pub open spec fn spec_max_user(es: Seq<FileInfo>) -> nat
    decreases es.len(),
{
    if es.len() == 0 {
        0
    } else {
        let rest = spec_max_user(es.drop_last());
        let w = es.last().user@.len();
        if w > rest {
            w
        } else {
            rest
        }
    }
}

/// The widest group name among `es`.
pub open spec fn spec_max_group(es: Seq<FileInfo>) -> nat
    decreases es.len(),
{
    if es.len() == 0 {
        0
    } else {
        let rest = spec_max_group(es.drop_last());
        let w = es.last().group@.len();
        if w > rest {
            w
        } else {
            rest
        }
    }
}

/// The widest decimal size among the non-device entries of `es`.
pub open spec fn spec_max_size(es: Seq<FileInfo>) -> nat
    decreases es.len(),
{
    if es.len() == 0 {
        0
    } else {
        let rest = spec_max_size(es.drop_last());
        if spec_is_device(es.last().kind) {
            rest
        } else {
            let w = spec_dec(es.last().size as nat).len();
            if w > rest {
                w
            } else {
                rest
            }
        }
    }
}

/// The widest `major, minor` text among the device entries of `es`.
pub open spec fn spec_max_device(es: Seq<FileInfo>) -> nat
    decreases es.len(),
{
    if es.len() == 0 {
        0
    } else {
        let rest = spec_max_device(es.drop_last());
        if spec_is_device(es.last().kind) {
            let w = spec_device_str(es.last().rdev).len();
            if w > rest {
                w
            } else {
                rest
            }
        } else {
            rest
        }
    }
}

/// The sum of the 512-byte block counts of `es`.
pub open spec fn spec_sum_blocks(es: Seq<FileInfo>) -> nat
    decreases es.len(),
{
    if es.len() == 0 {
        0
    } else {
        (spec_sum_blocks(es.drop_last()) + es.last().blocks) as nat
    }
}

/// The `total` header's number: the 512-byte block count converted to
/// 1024-byte blocks, rounded up.
pub open spec fn spec_total_kblocks(es: Seq<FileInfo>) -> nat {
    (spec_sum_blocks(es) + 1) / 2
}

/// One long-format row: type character, permission string (with a `+` for
/// extended attributes), link count, owner, group, size or `major, minor`
/// pair, modification time, and the decorated name.
pub open spec fn spec_long_row(
    f: FileInfo,
    classify: bool,
    wl: nat,
    wu: nat,
    wg: nat,
    ws: nat,
    wd: nat,
) -> Seq<char> {
    seq![spec_type_char(f.kind)] + (if f.permissions@.len() == 0 {
        "---------"@
    } else {
        f.permissions@
    }) + (if f.has_xattr {
        "+"@
    } else {
        ""@
    }) + " "@ + spec_pad_left(spec_dec(f.links as nat), wl) + " "@ + spec_pad_right(f.user@, wu)
        + " "@ + spec_pad_right(f.group@, wg) + " "@ + (if spec_is_device(f.kind) {
        spec_pad_left(spec_device_str(f.rdev), wd)
    } else {
        spec_pad_left(spec_dec(f.size as nat), ws)
    }) + " "@ + f.modified_time@ + " "@ + f.name@ + (if classify {
        spec_classify_suffix(f.kind)
    } else {
        ""@
    }) + (if f.kind is Symlink && f.symlink_target is Some {
        " -> "@
    } else {
        ""@
    }) + (if f.kind is Symlink && f.symlink_target is Some {
        f.symlink_target->0@
    } else {
        ""@
    }) + "\n"@
}

/// The long-format rows of `es` from position `i` on.
pub open spec fn spec_rows(
    es: Seq<FileInfo>,
    classify: bool,
    wl: nat,
    wu: nat,
    wg: nat,
    ws: nat,
    wd: nat,
    i: int,
) -> Seq<char>
    decreases es.len() - i,
{
    if i < 0 || i >= es.len() {
        Seq::empty()
    } else {
        spec_long_row(es[i], classify, wl, wu, wg, ws, wd) + spec_rows(
            es,
            classify,
            wl,
            wu,
            wg,
            ws,
            wd,
            i + 1,
        )
    }
}

/// The short-format names of `es` from position `i` on, separated by two
/// spaces, each with its classify suffix when asked for.
pub open spec fn spec_short_names(es: Seq<FileInfo>, classify: bool, i: int) -> Seq<char>
    decreases es.len() - i,
{
    if i < 0 || i >= es.len() {
        Seq::empty()
    } else {
        (if i > 0 {
            "  "@
        } else {
            ""@
        }) + es[i].name@ + (if classify {
            spec_classify_suffix(es[i].kind)
        } else {
            ""@
        }) + spec_short_names(es, classify, i + 1)
    }
}

/// A short-format line: the names on one line, newline-terminated; nothing
/// at all for an empty listing.
pub open spec fn spec_short_line(es: Seq<FileInfo>, classify: bool) -> Seq<char> {
    if es.len() == 0 {
        Seq::empty()
    } else {
        spec_short_names(es, classify, 0) + "\n"@
    }
}

/// One directory's block: in long format a `total` header and one row per
/// entry with the columns sized to the directory's widest values (device
/// texts never narrower than the size column); in short format one line of
/// names.
pub open spec fn spec_dir_block(es: Seq<FileInfo>, classify: bool, listing: bool) -> Seq<char> {
    if listing {
        let wl = spec_max_links(es);
        let wu = spec_max_user(es);
        let wg = spec_max_group(es);
        let ws = spec_max_size(es);
        let wd0 = spec_max_device(es);
        let wd = if wd0 > ws {
            wd0
        } else {
            ws
        };
        "total "@ + spec_dec(spec_total_kblocks(es)) + "\n"@ + spec_rows(
            es,
            classify,
            wl,
            wu,
            wg,
            ws,
            wd,
            0,
        )
    } else {
        spec_short_line(es, classify)
    }
}

/// The rendered listing from directory `i` on: a `name:` header before each
/// block when several directories are listed, the block of each directory's
/// entries in listing order, and a blank line after every block but the
/// last.
pub open spec fn spec_render_dirs(
    data: Seq<Directory>,
    multi: bool,
    classify: bool,
    listing: bool,
    i: int,
) -> Seq<char>
    decreases data.len() - i,
{
    if i < 0 || i >= data.len() {
        Seq::empty()
    } else {
        (if multi {
            data[i].name@
        } else {
            ""@
        }) + (if multi {
            ":\n"@
        } else {
            ""@
        }) + spec_dir_block(spec_sort(data[i].file_content@), classify, listing) + (if i < data.len()
            - 1 {
            "\n"@
        } else {
            ""@
        }) + spec_render_dirs(data, multi, classify, listing, i + 1)
    }
}

/// The whole rendered listing.
pub open spec fn spec_render(data: Seq<Directory>, classify: bool, listing: bool) -> Seq<char> {
    spec_render_dirs(data, data.len() > 1, classify, listing, 0)
}

fn render_long_row(
    f: &FileInfo,
    classify: bool,
    wl: usize,
    wu: usize,
    wg: usize,
    ws: usize,
    wd: usize,
) -> (r: String)
    ensures
        r@ == spec_long_row(*f, classify, wl as nat, wu as nat, wg as nat, ws as nat, wd as nat),
{
    // Conditional pieces append an empty string in the branch where they
    // add nothing, so the built text matches the row's stated shape term
    // for term.
    let mut row = String::new();
    push_char(&mut row, file_type_char(&f.kind));
    proof {
        assert(row@ =~= seq![spec_type_char(f.kind)]);
    }
    if f.permissions.as_str().unicode_len() == 0 {
        row.append("---------");
    } else {
        row.append(f.permissions.as_str());
    }
    if f.has_xattr {
        row.append("+");
    } else {
        row.append("");
    }
    row.append(" ");
    let links = u64_to_string(f.links);
    let p1 = pad_left(&links, wl);
    row.append(p1.as_str());
    row.append(" ");
    let p2 = pad_right(&f.user, wu);
    row.append(p2.as_str());
    row.append(" ");
    let p3 = pad_right(&f.group, wg);
    row.append(p3.as_str());
    row.append(" ");
    if is_device_kind(&f.kind) {
        let d = device_str(f.rdev);
        let p4 = pad_left(&d, wd);
        row.append(p4.as_str());
    } else {
        let sz = u64_to_string(f.size);
        let p4 = pad_left(&sz, ws);
        row.append(p4.as_str());
    }
    row.append(" ");
    row.append(f.modified_time.as_str());
    row.append(" ");
    row.append(f.name.as_str());
    if classify {
        row.append(add_classify_syntax(&f.kind));
    } else {
        row.append("");
    }
    let is_link_with_target = match (&f.kind, &f.symlink_target) {
        (FileKind::Symlink, Some(_)) => true,
        _ => false,
    };
    if is_link_with_target {
        row.append(" -> ");
        match &f.symlink_target {
            Some(t) => row.append(t.as_str()),
            None => row.append(""),
        }
    } else {
        row.append("");
        row.append("");
    }
    row.append("\n");
    row
}

#[verifier::rlimit(50)]
fn render_dir_block(entries: &Vec<FileInfo>, is_classify: bool, is_listing: bool) -> (r: String)
    ensures
        r@ == spec_dir_block(entries@, is_classify, is_listing),
{
    let es = entries;
    let n = es.len();
    let mut block = String::new();
    if is_listing {
        let mut wl: usize = 0;
        let mut wu: usize = 0;
        let mut wg: usize = 0;
        let mut ws: usize = 0;
        let mut wd0: usize = 0;
        let mut sum: u128 = 0;
        let mut i: usize = 0;
        proof {
            assert(es@.subrange(0, 0int) =~= Seq::<FileInfo>::empty());
        }
        while i < n
            invariant
                n == es@.len(),
                i <= n,
                wl as nat == spec_max_links(es@.subrange(0, i as int)),
                wu as nat == spec_max_user(es@.subrange(0, i as int)),
                wg as nat == spec_max_group(es@.subrange(0, i as int)),
                ws as nat == spec_max_size(es@.subrange(0, i as int)),
                wd0 as nat == spec_max_device(es@.subrange(0, i as int)),
                sum as nat == spec_sum_blocks(es@.subrange(0, i as int)),
                sum <= (i as u128) * 0xffff_ffff_ffff_ffffu128,
            decreases n - i,
        {
            proof {
                assert(es@.subrange(0, i + 1).drop_last() =~= es@.subrange(0, i as int));
                assert(es@.subrange(0, i + 1).last() == es@[i as int]);
            }
            let f = &es[i];
            let links = u64_to_string(f.links);
            let w1 = links.as_str().unicode_len();
            if w1 > wl {
                wl = w1;
            }
            let w2 = f.user.as_str().unicode_len();
            if w2 > wu {
                wu = w2;
            }
            let w3 = f.group.as_str().unicode_len();
            if w3 > wg {
                wg = w3;
            }
            if is_device_kind(&f.kind) {
                let d = device_str(f.rdev);
                let w4 = d.as_str().unicode_len();
                if w4 > wd0 {
                    wd0 = w4;
                }
            } else {
                let sz = u64_to_string(f.size);
                let w4 = sz.as_str().unicode_len();
                if w4 > ws {
                    ws = w4;
                }
            }
            sum = sum + (f.blocks as u128);
            i = i + 1;
        }
        proof {
            assert(es@.subrange(0, n as int) =~= es@);
        }
        let wd = if wd0 > ws {
            wd0
        } else {
            ws
        };
        let kb: u128 = (sum + 1) / 2;
        block.append("total ");
        let kbs = u128_to_string(kb);
        block.append(kbs.as_str());
        block.append("\n");
        let ghost prefix = "total "@ + spec_dec(spec_total_kblocks(es@)) + "\n"@;
        let mut j: usize = 0;
        proof {
            assert(block@ + spec_rows(
                es@,
                is_classify,
                wl as nat,
                wu as nat,
                wg as nat,
                ws as nat,
                wd as nat,
                0,
            ) =~= prefix + spec_rows(
                es@,
                is_classify,
                wl as nat,
                wu as nat,
                wg as nat,
                ws as nat,
                wd as nat,
                0,
            ));
        }
        while j < n
            invariant
                n == es@.len(),
                j <= n,
                block@ + spec_rows(
                    es@,
                    is_classify,
                    wl as nat,
                    wu as nat,
                    wg as nat,
                    ws as nat,
                    wd as nat,
                    j as int,
                ) == prefix + spec_rows(
                    es@,
                    is_classify,
                    wl as nat,
                    wu as nat,
                    wg as nat,
                    ws as nat,
                    wd as nat,
                    0,
                ),
            decreases n - j,
        {
            let ghost block0 = block@;
            let row = render_long_row(&es[j], is_classify, wl, wu, wg, ws, wd);
            block.append(row.as_str());
            proof {
                assert(block@ + spec_rows(
                    es@,
                    is_classify,
                    wl as nat,
                    wu as nat,
                    wg as nat,
                    ws as nat,
                    wd as nat,
                    j + 1,
                ) =~= block0 + spec_rows(
                    es@,
                    is_classify,
                    wl as nat,
                    wu as nat,
                    wg as nat,
                    ws as nat,
                    wd as nat,
                    j as int,
                ));
            }
            j = j + 1;
        }
        proof {
            assert(spec_rows(
                es@,
                is_classify,
                wl as nat,
                wu as nat,
                wg as nat,
                ws as nat,
                wd as nat,
                n as int,
            ) == Seq::<char>::empty());
            assert(block@ + Seq::<char>::empty() =~= block@);
        }
        block
    } else {
        if n == 0 {
            return block;
        }
        let mut j: usize = 0;
        proof {
            assert(block@ + spec_short_names(es@, is_classify, 0) =~= spec_short_names(
                es@,
                is_classify,
                0,
            ));
        }
        while j < n
            invariant
                n == es@.len(),
                j <= n,
                block@ + spec_short_names(es@, is_classify, j as int) == spec_short_names(
                    es@,
                    is_classify,
                    0,
                ),
            decreases n - j,
        {
            let ghost block0 = block@;
            if j > 0 {
                block.append("  ");
            } else {
                block.append("");
            }
            block.append(es[j].name.as_str());
            if is_classify {
                block.append(add_classify_syntax(&es[j].kind));
            } else {
                block.append("");
            }
            proof {
                assert(block@ + spec_short_names(es@, is_classify, j + 1) =~= block0
                    + spec_short_names(es@, is_classify, j as int));
            }
            j = j + 1;
        }
        proof {
            assert(spec_short_names(es@, is_classify, n as int) == Seq::<char>::empty());
            assert(block@ + Seq::<char>::empty() =~= block@);
        }
        block.append("\n");
        block
    }
}

/// Renders the listing: sorts every directory's entries into listing
/// order, then prints each block, short or long, with headers and blank
/// separator lines when several directories were asked for.
#[verifier::rlimit(100)]
pub fn display_ls_result(
    _is_all: bool,
    is_classify: bool,
    is_listing: bool,
    data: Vec<Directory>,
) -> (r: String)
    ensures
        r@ == spec_render(data@, is_classify, is_listing),
{
    let ghost orig = data@;
    let n = data.len();
    let multi = n > 1;
    let mut src = data;
    let mut result = String::new();
    proof {
        assert(src@ =~= orig.subrange(0, orig.len() as int));
        assert(result@ + spec_render_dirs(orig, multi, is_classify, is_listing, 0)
            =~= spec_render_dirs(orig, multi, is_classify, is_listing, 0));
    }
    while src.len() > 0
        invariant
            n == orig.len(),
            multi == (n > 1),
            src@.len() <= orig.len(),
            src@ == orig.subrange(orig.len() - src@.len(), orig.len() as int),
            result@ + spec_render_dirs(
                orig,
                multi,
                is_classify,
                is_listing,
                orig.len() - src@.len(),
            ) == spec_render_dirs(orig, multi, is_classify, is_listing, 0),
        decreases src@.len(),
    {
        let ghost di = orig.len() - src@.len();
        let remaining_after = src.len() - 1;
        let dir = src.remove(0);
        proof {
            assert(dir == orig[di as int]);
            assert(src@ =~= orig.subrange(di as int + 1, orig.len() as int));
        }
        let ghost result0 = result@;
        if multi {
            result.append(dir.name.as_str());
            result.append(":\n");
        } else {
            result.append("");
            result.append("");
        }
        let sorted = sort_entries(dir.file_content);
        let block = render_dir_block(&sorted, is_classify, is_listing);
        result.append(block.as_str());
        if remaining_after > 0 {
            result.append("\n");
        } else {
            result.append("");
        }
        proof {
            assert(result@ + spec_render_dirs(
                orig,
                multi,
                is_classify,
                is_listing,
                di as int + 1,
            ) =~= result0 + spec_render_dirs(orig, multi, is_classify, is_listing, di as int));
        }
    }
    proof {
        assert(spec_render_dirs(orig, multi, is_classify, is_listing, orig.len() as int)
            == Seq::<char>::empty());
        assert(result@ + Seq::<char>::empty() =~= result@);
    }
    result
}

} // verus!
