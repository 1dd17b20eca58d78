//! Directory listings and file-content rules: the ordering of listed
//! entries, the binary-content probe, and the read-size limit.
//!
//! Reading a directory or a file is a request/response call at the
//! runtime's edge, local or over the remote transport alike; the library
//! owns what is decided about the results: how entries are ordered for
//! display, which contents count as binary, and which files are too large
//! to read.

use vstd::prelude::*;
use vstd::seq_lib::lemma_multiset_commutative;
use vstd::string::StrSliceExecFns;
use crate::text::lower_of;
use crate::text::lowered;

verus! {

broadcast use vstd::seq_lib::group_to_multiset_ensures;

/// One entry of a directory listing.
#[derive(Clone)]
pub struct FileEntry {
    pub name: String,
    pub path: String,
    pub is_directory: bool,
    pub is_symlink: bool,
    pub size: u64,
}

/// What is reported about a single file.
pub struct FileInfo {
    pub size: u64,
    pub is_binary: bool,
    pub is_readonly: bool,
}

/// How many leading bytes the binary probe examines.
pub const BINARY_PROBE_LEN: usize = 8192;

/// How many bytes a file may have and still be read as text.
pub const MAX_READ_SIZE: u64 = 52428800;

/// A content is taken for binary when a null byte occurs among its first
/// `BINARY_PROBE_LEN` bytes.
pub open spec fn has_null_prefix(bytes: Seq<u8>) -> bool {
    exists|i: int|
        0 <= i < bytes.len() && i < BINARY_PROBE_LEN && #[trigger] bytes[i] == 0
}

/// Probe a content for binary data: a null byte in the leading bytes.
pub fn looks_binary(bytes: &Vec<u8>) -> (r: bool)
    ensures
        r == has_null_prefix(bytes@),
{
    let mut i: usize = 0;
    let limit = if bytes.len() < BINARY_PROBE_LEN {
        bytes.len()
    } else {
        BINARY_PROBE_LEN
    };
    while i < limit
        invariant
            limit <= bytes@.len(),
            limit == if bytes@.len() < BINARY_PROBE_LEN as int {
                bytes@.len() as int
            } else {
                BINARY_PROBE_LEN as int
            },
            i <= limit,
            forall|k: int| 0 <= k < i ==> bytes@[k] != 0,
        decreases limit - i,
    {
        if bytes[i] == 0 {
            return true;
        }
        i += 1;
    }
    false
}

/// Is a file too large to read as text? The limit is 50 MiB.
pub fn exceeds_read_limit(size: u64) -> (r: bool)
    ensures
        r == (size > MAX_READ_SIZE),
{
    size > 52428800
}

// ---------------------------------------------------------------------------
// Ordering of directory listings
// ---------------------------------------------------------------------------
/// Lexicographic order on character sequences, by scalar value.
pub open spec fn chars_le(a: Seq<char>, b: Seq<char>) -> bool
    decreases a.len(),
{
    if a.len() == 0 {
        true
    } else if b.len() == 0 {
        false
    } else if (a[0] as u32) < (b[0] as u32) {
        true
    } else if (a[0] as u32) > (b[0] as u32) {
        false
    } else {
        chars_le(a.drop_first(), b.drop_first())
    }
}

pub proof fn lemma_chars_le_total(a: Seq<char>, b: Seq<char>)
    ensures
        chars_le(a, b) || chars_le(b, a),
    decreases a.len(),
{
    if a.len() == 0 || b.len() == 0 {
    } else if (a[0] as u32) == (b[0] as u32) {
        lemma_chars_le_total(a.drop_first(), b.drop_first());
    }
}

pub proof fn lemma_chars_le_trans(a: Seq<char>, b: Seq<char>, c: Seq<char>)
    requires
        chars_le(a, b),
        chars_le(b, c),
    ensures
        chars_le(a, c),
    decreases a.len(),
{
    if a.len() == 0 {
    } else {
        assert(b.len() > 0);
        assert(c.len() > 0);
        if (a[0] as u32) == (b[0] as u32) && (b[0] as u32) == (c[0] as u32) {
            lemma_chars_le_trans(a.drop_first(), b.drop_first(), c.drop_first());
        }
    }
}

/// The display order of directory entries: directories before files, and
/// within each group the case-folded names lexicographically.
pub open spec fn entry_le(a: FileEntry, b: FileEntry) -> bool {
    if a.is_directory != b.is_directory {
        a.is_directory
    } else {
        chars_le(lower_of(a.name@), lower_of(b.name@))
    }
}

pub proof fn lemma_entry_le_total(a: FileEntry, b: FileEntry)
    ensures
        entry_le(a, b) || entry_le(b, a),
{
    if a.is_directory == b.is_directory {
        lemma_chars_le_total(lower_of(a.name@), lower_of(b.name@));
    }
}

pub proof fn lemma_entry_le_trans(a: FileEntry, b: FileEntry, c: FileEntry)
    requires
        entry_le(a, b),
        entry_le(b, c),
    ensures
        entry_le(a, c),
{
    if a.is_directory == b.is_directory && b.is_directory == c.is_directory {
        lemma_chars_le_trans(lower_of(a.name@), lower_of(b.name@), lower_of(c.name@));
    }
}

proof fn lemma_chars_le_skip(a: Seq<char>, b: Seq<char>, i: int)
    requires
        0 <= i <= a.len(),
        i <= b.len(),
        forall|k: int| 0 <= k < i ==> a[k] == b[k],
    ensures
        chars_le(a, b) == chars_le(
            a.subrange(i, a.len() as int),
            b.subrange(i, b.len() as int),
        ),
    decreases i,
{
    if i == 0 {
        assert(a.subrange(0, a.len() as int) =~= a);
        assert(b.subrange(0, b.len() as int) =~= b);
    } else {
        assert(a.len() > 0 && b.len() > 0);
        assert(a[0] == b[0]);
        let ta = a.drop_first();
        let tb = b.drop_first();
        assert(ta =~= a.subrange(1, a.len() as int));
        assert(tb =~= b.subrange(1, b.len() as int));
        lemma_chars_le_skip(ta, tb, i - 1);
        assert(ta.subrange(i - 1, ta.len() as int) =~= a.subrange(i, a.len() as int));
        assert(tb.subrange(i - 1, tb.len() as int) =~= b.subrange(i, b.len() as int));
    }
}

/// Decide the lexicographic order of two strings, by scalar value.
pub fn lex_le(a: &str, b: &str) -> (r: bool)
    ensures
        r == chars_le(a@, b@),
{
    let an = a.unicode_len();
    let bn = b.unicode_len();
    let min = if an < bn {
        an
    } else {
        bn
    };
    let mut i: usize = 0;
    while i < min
        invariant
            an == a@.len(),
            bn == b@.len(),
            min == if an < bn {
                an as int
            } else {
                bn as int
            },
            i <= min,
            forall|k: int| 0 <= k < i ==> a@[k] == b@[k],
        decreases min - i,
    {
        let ca = a.get_char(i);
        let cb = b.get_char(i);
        if (ca as u32) < (cb as u32) {
            proof {
                lemma_chars_le_skip(a@, b@, i as int);
            }
            return true;
        }
        if (ca as u32) > (cb as u32) {
            proof {
                lemma_chars_le_skip(a@, b@, i as int);
            }
            return false;
        }
        proof {
            assert(ca == cb);
        }
        i += 1;
    }
    proof {
        lemma_chars_le_skip(a@, b@, min as int);
        if an <= bn {
            assert(a@.subrange(min as int, an as int).len() == 0);
        } else {
            assert(b@.subrange(min as int, bn as int).len() == 0);
            assert(a@.subrange(min as int, an as int).len() > 0);
        }
    }
    an <= bn
}

/// Decide the display order of two entries.
pub fn entry_le_exec(a: &FileEntry, b: &FileEntry) -> (r: bool)
    ensures
        r == entry_le(*a, *b),
{
    if a.is_directory && !b.is_directory {
        true
    } else if !a.is_directory && b.is_directory {
        false
    } else {
        let la = lowered(a.name.as_str());
        let lb = lowered(b.name.as_str());
        lex_le(la.as_str(), lb.as_str())
    }
}

pub open spec fn entries_sorted(s: Seq<FileEntry>) -> bool {
    forall|i: int, j: int| 0 <= i < j < s.len() ==> entry_le(#[trigger] s[i], #[trigger] s[j])
}

/// Sort a directory listing for display: directories first, then
/// alphabetically with case folded. The result holds exactly the entries
/// given.
pub fn sort_entries(entries: Vec<FileEntry>) -> (r: Vec<FileEntry>)
    ensures
        entries_sorted(r@),
        r@.to_multiset() == entries@.to_multiset(),
        r@.len() == entries@.len(),
{
    let mut input = entries;
    let mut out: Vec<FileEntry> = Vec::new();
    let ghost all = input@;
    proof {
        assert(out@ =~= Seq::<FileEntry>::empty());
        assert(out@.to_multiset().add(input@.to_multiset()) =~= all.to_multiset());
    }
    while input.len() > 0
        invariant
            entries_sorted(out@),
            out@.to_multiset().add(input@.to_multiset()) == all.to_multiset(),
            out@.len() + input@.len() == all.len(),
        decreases input@.len(),
    {
        let ghost pre_in = input@;
        let ghost pre_out = out@;
        let x = input.remove(0);
        proof {
            assert(pre_in[0] == x);
            assert(pre_in.contains(x));
            assert(input@.to_multiset() =~= pre_in.to_multiset().remove(x));
            assert(pre_in.to_multiset().count(x) > 0);
        }
        let mut p: usize = 0;
        while p < out.len() && entry_le_exec(&out[p], &x)
            invariant
                p <= out@.len(),
                entries_sorted(out@),
                forall|k: int| 0 <= k < p ==> entry_le(#[trigger] out@[k], x),
            decreases out@.len() - p,
        {
            p += 1;
        }
        proof {
            if p < out@.len() {
                lemma_entry_le_total(out@[p as int], x);
            }
            assert forall|k: int| p <= k < out@.len() implies entry_le(x, #[trigger] out@[k]) by {
                assert(entry_le(x, out@[p as int]));
                if k > p {
                    lemma_entry_le_trans(x, out@[p as int], out@[k]);
                }
            }
        }
        out.insert(p, x);
        proof {
            let ins = pre_out.insert(p as int, x);
            assert(out@ == ins);
            pre_out.insert_ensures(p as int, x);
            assert forall|i: int, j: int|
                0 <= i < j < out@.len() implies entry_le(#[trigger] out@[i], #[trigger] out@[j]) by {
                if j < p {
                    assert(out@[i] == pre_out[i] && out@[j] == pre_out[j]);
                } else if i > p {
                    assert(out@[i] == pre_out[i - 1] && out@[j] == pre_out[j - 1]);
                } else if i == p {
                    assert(out@[i] == x && out@[j] == pre_out[j - 1]);
                } else if j == p {
                    assert(out@[i] == pre_out[i] && out@[j] == x);
                } else {
                    assert(i < p && j > p);
                    assert(out@[i] == pre_out[i] && out@[j] == pre_out[j - 1]);
                }
            }
            let front = pre_out.subrange(0, p as int);
            let back = pre_out.subrange(p as int, pre_out.len() as int);
            assert(ins =~= front.push(x) + back);
            lemma_multiset_commutative(front.push(x), back);
            lemma_multiset_commutative(front, back);
            assert(pre_out =~= front + back);
            assert(front.push(x).to_multiset() =~= front.to_multiset().insert(x));
            assert(out@.to_multiset() =~= pre_out.to_multiset().insert(x));
            assert(out@.to_multiset().add(input@.to_multiset()) =~= pre_out.to_multiset().add(
                pre_in.to_multiset(),
            ));
        }
    }
    proof {
        assert(input@.to_multiset().len() == 0);
        assert(out@.to_multiset().add(input@.to_multiset()) =~= out@.to_multiset());
    }
    out
}

} // verus!
