//! Decisions taken for each directory entry while walking a drive, and the
//! size totals of a directory. Listing the entries is the caller's.
use vstd::prelude::*;
use crate::cleaner::sat_add;
use crate::text::{chars_of, ends_with, ends_with_lit};

verus! {

/// Attribute bit of a directory.
pub const FILE_ATTRIBUTE_DIRECTORY: u32 = 0x10;
/// Attribute bit of a reparse point (symbolic link, junction, ...).
pub const FILE_ATTRIBUTE_REPARSE_POINT: u32 = 0x400;

/// Total size and number of the files under a directory.
#[derive(Debug, Clone, Copy, Default, PartialEq, Eq, Structural)]
pub struct DirSummary {
    pub size_bytes: u64,
    pub file_count: u64,
}

impl DirSummary {
    /// Count one file of `size` bytes (saturating).
    pub fn add_file(&mut self, size: u64)
        ensures
            final(self).size_bytes == sat_add(old(self).size_bytes, size),
            final(self).file_count == sat_add(old(self).file_count, 1),
    {
        self.size_bytes = self.size_bytes.saturating_add(size);
        self.file_count = self.file_count.saturating_add(1);
    }

    /// Add the totals of a subdirectory (saturating).
    pub fn add_dir(&mut self, sub: DirSummary)
        ensures
            final(self).size_bytes == sat_add(old(self).size_bytes, sub.size_bytes),
            final(self).file_count == sat_add(old(self).file_count, sub.file_count),
    {
        self.size_bytes = self.size_bytes.saturating_add(sub.size_bytes);
        self.file_count = self.file_count.saturating_add(sub.file_count);
    }
}

/// The length of a NUL-terminated name: up to its first NUL, or all of it.
pub open spec fn wide_len(name: Seq<u16>) -> int
    decreases name.len(),
{
    if name.len() == 0 {
        0
    } else if name[0] == 0 {
        0
    } else {
        1 + wide_len(name.drop_first())
    }
}

proof fn lemma_wide_len(name: Seq<u16>, i: int)
    requires
        0 <= i <= name.len(),
        forall|k: int| 0 <= k < i ==> name[k] != 0,
        i == name.len() || name[i] == 0,
    ensures
        wide_len(name) == i,
    decreases i,
{
    if i > 0 {
        assert forall|k: int| 0 <= k < i - 1 implies name.drop_first()[k] != 0 by {
            assert(name.drop_first()[k] == name[k + 1]);
        }
        if i < name.len() {
            assert(name.drop_first()[i - 1] == name[i]);
        }
        lemma_wide_len(name.drop_first(), i - 1);
    }
}

/// The length of a NUL-terminated name.
pub fn name_len(name: &[u16]) -> (n: usize)
    ensures
        n == wide_len(name@),
        n <= name.len(),
{
    let mut i: usize = 0;
    while i < name.len() && name[i] != 0
        invariant
            i <= name.len(),
            forall|k: int| 0 <= k < i ==> name@[k] != 0,
        decreases name.len() - i,
    {
        i = i + 1;
    }
    proof {
        lemma_wide_len(name@, i as int);
    }
    i
}

/// The name is `.` or `..`.
pub open spec fn spec_is_dots(name: Seq<u16>) -> bool {
    (wide_len(name) == 1 && name[0] == 0x2e) || (wide_len(name) == 2 && name[0] == 0x2e && name[1]
        == 0x2e)
}

/// Whether a NUL-terminated name is `.` or `..`.
pub fn is_dots(name: &[u16]) -> (r: bool)
    ensures
        r == spec_is_dots(name@),
{
    let len = name_len(name);
    (len == 1 && name[0] == 0x2e) || (len == 2 && name[0] == 0x2e && name[1] == 0x2e)
}

/// Whether the attributes mark a reparse point.
pub fn is_reparse(attrs: u32) -> (r: bool)
    ensures
        r == (attrs & FILE_ATTRIBUTE_REPARSE_POINT != 0),
{
    (attrs & FILE_ATTRIBUTE_REPARSE_POINT) != 0
}

/// Whether the attributes mark a directory.
pub fn is_dir(attrs: u32) -> (r: bool)
    ensures
        r == (attrs & FILE_ATTRIBUTE_DIRECTORY != 0),
{
    (attrs & FILE_ATTRIBUTE_DIRECTORY) != 0
}

/// A 64-bit file size from its high and low halves.
pub fn file_size_u64(high: u32, low: u32) -> (r: u64)
    ensures
        r == high as int * 0x1_0000_0000 + low as int,
{
    let r = ((high as u64) << 32u64) | (low as u64);
    assert(((high as u64) << 32u64) | (low as u64) == high as u64 * 0x1_0000_0000 + low as u64)
        by (bit_vector);
    r
}

/// What a walk does with a directory entry.
#[derive(Debug, Clone, Copy, PartialEq, Eq, Structural)]
pub enum EntryKind {
    /// `.`, `..` or a reparse point: not followed and not counted.
    Skip,
    /// A directory to descend into.
    Dir,
    /// A file to count.
    File,
}

/// How an entry with this name and these attributes is treated.
pub open spec fn spec_entry_kind(name: Seq<u16>, attrs: u32) -> EntryKind {
    if spec_is_dots(name) || attrs & FILE_ATTRIBUTE_REPARSE_POINT != 0 {
        EntryKind::Skip
    } else if attrs & FILE_ATTRIBUTE_DIRECTORY != 0 {
        EntryKind::Dir
    } else {
        EntryKind::File
    }
}

/// How an entry with this name and these attributes is treated: dot
/// entries and reparse points are skipped, so links are never followed.
pub fn entry_kind(name: &[u16], attrs: u32) -> (r: EntryKind)
    ensures
        r == spec_entry_kind(name@, attrs),
{
    if is_dots(name) || is_reparse(attrs) {
        EntryKind::Skip
    } else if is_dir(attrs) {
        EntryKind::Dir
    } else {
        EntryKind::File
    }
}

/// A leading (high) surrogate.
pub open spec fn is_high_surrogate(u: u16) -> bool {
    0xD800 <= u && u <= 0xDBFF
}

/// A trailing (low) surrogate.
pub open spec fn is_low_surrogate(u: u16) -> bool {
    0xDC00 <= u && u <= 0xDFFF
}

/// UTF-16 decoding that turns each unpaired surrogate into U+FFFD: a high
/// surrogate followed by a low one is one character, any other surrogate
/// is a replacement character, any other unit is the character it codes.
pub open spec fn utf16_lossy(u: Seq<u16>) -> Seq<char>
    decreases u.len(),
{
    if u.len() == 0 {
        Seq::empty()
    } else if u.len() >= 2 && is_high_surrogate(u[0]) && is_low_surrogate(u[1]) {
        seq![(0x10000 + (u[0] - 0xD800) * 0x400 + (u[1] - 0xDC00)) as char] + utf16_lossy(
            u.subrange(2, u.len() as int),
        )
    } else if is_high_surrogate(u[0]) || is_low_surrogate(u[0]) {
        seq!['\u{FFFD}'] + utf16_lossy(u.drop_first())
    } else {
        seq![u[0] as char] + utf16_lossy(u.drop_first())
    }
}

/// `char::from_u32` (std) gives the character with code point `i`, or
/// `None` when `i` is a surrogate code point or above `char::MAX`.
pub assume_specification[ char::from_u32 ](i: u32) -> (r: Option<char>)
    ensures
        r == (if i <= 0xD7FF || (0xE000 <= i && i <= 0x10FFFF) {
            Some(i as char)
        } else {
            None
        }),
;

proof fn lemma_lossy_step(u: Seq<u16>, i: int)
    requires
        0 <= i < u.len(),
    ensures
        ({
            let rest = u.subrange(i, u.len() as int);
            &&& rest[0] == u[i]
            &&& i + 1 < u.len() ==> rest[1] == u[i + 1]
            &&& rest.drop_first() == u.subrange(i + 1, u.len() as int)
            &&& i + 1 < u.len() ==> rest.subrange(2, rest.len() as int) == u.subrange(i + 2, u.len() as int)
        }),
{
    let rest = u.subrange(i, u.len() as int);
    assert(rest.drop_first() =~= u.subrange(i + 1, u.len() as int));
    if i + 1 < u.len() {
        assert(rest.subrange(2, rest.len() as int) =~= u.subrange(i + 2, u.len() as int));
    }
}

/// UTF-16 decoding with U+FFFD in place of each unpaired surrogate, as
/// `String::from_utf16_lossy` does.
fn from_utf16_lossy(units: &[u16]) -> (r: String)
    ensures
        r@ == utf16_lossy(units@),
{
    let n = units.len();
    let ghost u = units@;
    let mut out = String::new();
    let mut i: usize = 0;
    assert(u.subrange(0, n as int) =~= u);
    while i < n
        invariant
            n == u.len(),
            u == units@,
            i <= n,
            out@ + utf16_lossy(u.subrange(i as int, n as int)) == utf16_lossy(u),
        decreases n - i,
    {
        proof {
            lemma_lossy_step(u, i as int);
        }
        let ghost before = out@;
        let ghost rest = u.subrange(i as int, n as int);
        let w = units[i];
        if i + 1 < n && 0xD800 <= w && w <= 0xDBFF && 0xDC00 <= units[i + 1] && units[i + 1] <= 0xDFFF {
            let lo = units[i + 1];
            let cp: u32 = 0x10000 + (w as u32 - 0xD800) * 0x400 + (lo as u32 - 0xDC00);
            assert(0x10000 <= cp <= 0x10FFFF);
            let c = char::from_u32(cp);
            assert(c == Some(cp as char));
            out.push(c.unwrap());
            proof {
                assert(utf16_lossy(rest) == seq![cp as char] + utf16_lossy(u.subrange(i + 2, n as int)));
                assert(out@ == before.push(cp as char));
                assert(before + (seq![cp as char] + utf16_lossy(u.subrange(i + 2, n as int))) =~= out@
                    + utf16_lossy(u.subrange(i + 2, n as int)));
            }
            i = i + 2;
        } else if 0xD800 <= w && w <= 0xDFFF {
            out.push('\u{FFFD}');
            proof {
                assert(utf16_lossy(rest) == seq!['\u{FFFD}'] + utf16_lossy(u.subrange(i + 1, n as int)));
                assert(before + (seq!['\u{FFFD}'] + utf16_lossy(u.subrange(i + 1, n as int))) =~= out@
                    + utf16_lossy(u.subrange(i + 1, n as int)));
            }
            i = i + 1;
        } else {
            let c = char::from_u32(w as u32);
            assert(c == Some(w as char));
            out.push(c.unwrap());
            proof {
                assert(utf16_lossy(rest) == seq![w as char] + utf16_lossy(u.subrange(i + 1, n as int)));
                assert(before + (seq![w as char] + utf16_lossy(u.subrange(i + 1, n as int))) =~= out@
                    + utf16_lossy(u.subrange(i + 1, n as int)));
            }
            i = i + 1;
        }
    }
    assert(u.subrange(n as int, n as int) =~= Seq::<u16>::empty());
    assert(out@ + Seq::<char>::empty() =~= out@);
    out
}

/// The name held by a NUL-terminated UTF-16 buffer.
pub fn from_wide(buf: &[u16]) -> (r: String)
    ensures
        r@ == utf16_lossy(buf@.subrange(0, wide_len(buf@))),
{
    let len = name_len(buf);
    let mut units: Vec<u16> = Vec::new();
    let mut i: usize = 0;
    while i < len
        invariant
            len == wide_len(buf@),
            len <= buf.len(),
            i <= len,
            units@ == buf@.subrange(0, i as int),
        decreases len - i,
    {
        units.push(buf[i]);
        i = i + 1;
        assert(units@ =~= buf@.subrange(0, i as int));
    }
    from_utf16_lossy(units.as_slice())
}

/// The UTF-16 code units of one character.
pub open spec fn utf16_units(c: char) -> Seq<u16> {
    let u = c as u32;
    if u < 0x10000 {
        seq![u as u16]
    } else {
        seq![(0xD800 + (u - 0x10000) / 0x400) as u16, (0xDC00 + (u - 0x10000) % 0x400) as u16]
    }
}

/// The UTF-16 encoding of a string.
pub open spec fn utf16(s: Seq<char>) -> Seq<u16>
    decreases s.len(),
{
    if s.len() == 0 {
        Seq::<u16>::empty()
    } else {
        utf16(s.drop_last()) + utf16_units(s.last())
    }
}

/// The directory-listing pattern of `root`: `root\*` (just `*` added when
/// `root` already ends in `\`), UTF-16 encoded and NUL-terminated.
pub open spec fn spec_wide_pattern(root: Seq<char>) -> Seq<u16> {
    let p = if ends_with(root, "\\"@) { root + "*"@ } else { root + "\\*"@ };
    utf16(p).push(0u16)
}

/// The listing pattern of `root`, UTF-16 encoded and NUL-terminated.
pub fn to_wide_pattern(root: &str) -> (r: Vec<u16>)
    ensures
        r@ == spec_wide_pattern(root@),
{
    let rc = chars_of(root);
    let mut p = rc.clone();
    if ends_with_lit(&rc, "\\") {
        p.push('*');
        proof {
            reveal_strlit("*");
        }
        assert(p@ =~= root@ + "*"@);
    } else {
        p.push('\\');
        p.push('*');
        proof {
            reveal_strlit("\\*");
        }
        assert(p@ =~= root@ + "\\*"@);
    }
    let mut out: Vec<u16> = Vec::new();
    let mut i: usize = 0;
    while i < p.len()
        invariant
            i <= p.len(),
            out@ == utf16(p@.subrange(0, i as int)),
        decreases p.len() - i,
    {
        let c = p[i];
        let u = c as u32;
        let ghost before = out@;
        if u < 0x10000 {
            out.push(u as u16);
        } else {
            out.push((0xD800 + (u - 0x10000) / 0x400) as u16);
            out.push((0xDC00 + (u - 0x10000) % 0x400) as u16);
        }
        assert(out@ =~= before + utf16_units(c));
        assert(p@.subrange(0, i + 1).drop_last() =~= p@.subrange(0, i as int));
        i = i + 1;
    }
    assert(p@.subrange(0, i as int) =~= p@);
    out.push(0u16);
    out
}

} // verus!
