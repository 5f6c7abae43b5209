//! Decoder for Android's compiled binary XML ("AXML"): enough of the format
//! to answer one query over an in-memory manifest document — find an element
//! by name and return the value of one of its attributes.
//!
//! Every multi-byte read is bounds-checked; a malformed document degrades to
//! an empty string or an explicit error, never a panic.

use vstd::prelude::*;
use vstd::slice::slice_subrange;
use vstd::string::StringExecFns;

verus! {

/// Word that opens a binary XML document.
pub const AXML_MAGIC: u32 = 0x0008_0003;

/// Chunk type of the string pool.
pub const CHUNK_STRING_POOL: u16 = 0x0001;

/// Chunk type of an element-start record.
pub const CHUNK_ELEMENT_START: u16 = 0x0102;

/// Why a decode gave no attribute value.
#[derive(Clone, Copy, Debug, PartialEq, Eq, Structural)]
pub enum AxmlError {
    /// The leading magic word is not the binary XML document type.
    NotBinaryXml,
    /// The first chunk after the file header is not a string pool.
    StringPoolMissing,
    /// The chunk stream ran out without the requested element.
    ElementNotFound,
    /// The element was found but carries no attribute of the requested name.
    AttributeNotFound,
}

/// Little-endian 16-bit value at offset `o` of `d`, meaningful when
/// `0 <= o` and `o + 2 <= d.len()`.
pub open spec fn spec_le16(d: Seq<u8>, o: int) -> u16 {
    (d[o] as u16) | ((d[o + 1] as u16) << 8)
}

/// Little-endian 32-bit value at offset `o` of `d`, meaningful when
/// `0 <= o` and `o + 4 <= d.len()`.
pub open spec fn spec_le32(d: Seq<u8>, o: int) -> u32 {
    (d[o] as u32) | ((d[o + 1] as u32) << 8) | ((d[o + 2] as u32) << 16) | ((d[o + 3] as u32)
        << 24)
}

/// Reads that fall outside the buffer degrade to zero instead of failing:
/// a zero count or size stops decoding gracefully.
pub open spec fn le16_or_zero(d: Seq<u8>, o: int) -> u16 {
    if 0 <= o && o + 2 <= d.len() {
        spec_le16(d, o)
    } else {
        0
    }
}

/// 32-bit variant of [`le16_or_zero`].
pub open spec fn le32_or_zero(d: Seq<u8>, o: int) -> u32 {
    if 0 <= o && o + 4 <= d.len() {
        spec_le32(d, o)
    } else {
        0
    }
}

/// What `String::from_utf8_lossy` decodes a byte sequence to; the result
/// depends on the bytes alone.
pub uninterp spec fn utf8_lossy_of(bytes: Seq<u8>) -> Seq<char>;

/// What `String::from_utf16_lossy` decodes a sequence of 16-bit code units
/// to; the result depends on the units alone.
pub uninterp spec fn utf16_lossy_of(units: Seq<u16>) -> Seq<char>;

/// Relies on `String::from_utf8_lossy`: decodes the bytes as UTF-8,
/// substituting the replacement character for invalid sequences; the result
/// is a function of the bytes alone.
#[verifier::external_body]
fn utf8_lossy(bytes: &[u8]) -> (r: String)
    ensures
        r@ == utf8_lossy_of(bytes@),
{
    String::from_utf8_lossy(bytes).into_owned()
}

/// Relies on `String::from_utf16_lossy`: decodes the 16-bit units as UTF-16,
/// substituting the replacement character for unpaired surrogates; the
/// result is a function of the units alone.
#[verifier::external_body]
fn utf16_lossy(units: &[u16]) -> (r: String)
    ensures
        r@ == utf16_lossy_of(units@),
{
    String::from_utf16_lossy(units)
}

/// Bounds-checked little-endian `u16` read.
pub fn read_u16(d: &[u8], o: usize) -> (r: Option<u16>)
    ensures
        r == if o + 2 <= d@.len() {
            Some(spec_le16(d@, o as int))
        } else {
            None::<u16>
        },
{
    if o < d.len() && 2 <= d.len() - o {
        Some(le16(d, o))
    } else {
        None
    }
}

/// Bounds-checked little-endian `u32` read.
pub fn read_u32(d: &[u8], o: usize) -> (r: Option<u32>)
    ensures
        r == if o + 4 <= d@.len() {
            Some(spec_le32(d@, o as int))
        } else {
            None::<u32>
        },
{
    if o < d.len() && 4 <= d.len() - o {
        Some(le32(d, o))
    } else {
        None
    }
}

/// In-bounds little-endian `u16` read.
fn le16(d: &[u8], o: usize) -> (r: u16)
    requires
        o + 2 <= d@.len(),
    ensures
        r == spec_le16(d@, o as int),
{
    let b0 = d[o];
    let b1 = d[o + 1];
    (b0 as u16) | ((b1 as u16) << 8)
}

/// In-bounds little-endian `u32` read.
fn le32(d: &[u8], o: usize) -> (r: u32)
    requires
        o + 4 <= d@.len(),
    ensures
        r == spec_le32(d@, o as int),
{
    let b0 = d[o];
    let b1 = d[o + 1];
    let b2 = d[o + 2];
    let b3 = d[o + 3];
    (b0 as u32) | ((b1 as u32) << 8) | ((b2 as u32) << 16) | ((b3 as u32) << 24)
}

/// The string a UTF-8 pool entry at absolute position `p0` decodes to: a
/// 1-or-2-byte character count (skipped), a 1-or-2-byte byte count, then
/// that many bytes of UTF-8 data, clipped to the end of the buffer. Any
/// truncation degrades to the empty string or to the longest readable
/// prefix.
pub open spec fn spec_utf8_string(d: Seq<u8>, p0: int) -> Seq<char>
    recommends
        0 <= p0 < d.len(),
{
    let p1 = if d[p0] & 0x80 != 0 {
        p0 + 2
    } else {
        p0 + 1
    };
    if p1 >= d.len() {
        Seq::empty()
    } else if d[p1] & 0x80 != 0 {
        if p1 + 2 > d.len() {
            Seq::empty()
        } else {
            let bc = ((d[p1] & 0x7f) as int) * 256 + (d[p1 + 1] as int);
            let p2 = p1 + 2;
            let end = if p2 + bc <= d.len() {
                p2 + bc
            } else {
                d.len() as int
            };
            utf8_lossy_of(d.subrange(p2, end))
        }
    } else {
        let bc = d[p1] as int;
        let p2 = p1 + 1;
        let end = if p2 + bc <= d.len() {
            p2 + bc
        } else {
            d.len() as int
        };
        utf8_lossy_of(d.subrange(p2, end))
    }
}

/// The 16-bit code units of a UTF-16 pool entry: `k` units read from
/// position `start` on.
pub open spec fn spec_utf16_units(d: Seq<u8>, start: int, k: int) -> Seq<u16> {
    Seq::new(k as nat, |j: int| spec_le16(d, start + 2 * j))
}

/// The string a UTF-16 pool entry at absolute position `p0` decodes to: a
/// 2-byte character count, then that many 16-bit units, clipped to as many
/// as the buffer still holds.
pub open spec fn spec_utf16_string(d: Seq<u8>, p0: int) -> Seq<char>
    recommends
        0 <= p0 < d.len(),
{
    if p0 + 2 > d.len() {
        Seq::empty()
    } else {
        let cc = spec_le16(d, p0) as int;
        let start = p0 + 2;
        let avail = (d.len() - start) / 2;
        let k = if cc <= avail {
            cc
        } else {
            avail
        };
        utf16_lossy_of(spec_utf16_units(d, start, k))
    }
}

/// How many strings the pool chunk at `cs` declares.
pub open spec fn spec_pool_count(d: Seq<u8>, cs: int) -> int {
    le32_or_zero(d, cs + 8) as int
}

/// Whether the pool chunk at `cs` holds UTF-8 data (flag bit 8) rather than
/// UTF-16.
pub open spec fn spec_pool_is_utf8(d: Seq<u8>, cs: int) -> bool {
    le32_or_zero(d, cs + 16) & 0x100 != 0
}

/// String `i` of the pool chunk at `cs`. An offset entry or string position
/// outside the buffer degrades to the empty string.
pub open spec fn spec_pool_string(d: Seq<u8>, cs: int, i: int) -> Seq<char> {
    if cs + 28 + 4 * i + 4 > d.len() || cs < 0 || i < 0 {
        Seq::empty()
    } else {
        let off = spec_le32(d, cs + 28 + 4 * i) as int;
        let strings_start = le32_or_zero(d, cs + 20) as int;
        let abs = cs + strings_start + off;
        if abs >= d.len() {
            Seq::empty()
        } else if spec_pool_is_utf8(d, cs) {
            spec_utf8_string(d, abs)
        } else {
            spec_utf16_string(d, abs)
        }
    }
}

/// All strings of the pool chunk at `cs`, in pool order.
pub open spec fn spec_pool(d: Seq<u8>, cs: int) -> Seq<Seq<char>> {
    Seq::new(spec_pool_count(d, cs) as nat, |i: int| spec_pool_string(d, cs, i))
}

/// Decodes the UTF-8 pool entry at `p0`.
fn decode_utf8_string(data: &[u8], p0: usize) -> (r: String)
    requires
        p0 < data@.len(),
    ensures
        r@ == spec_utf8_string(data@, p0 as int),
{
    let n = data.len();
    let first = data[p0];
    let skip: usize = if first & 0x80 != 0 {
        2
    } else {
        1
    };
    if n - p0 <= skip {
        return String::new();
    }
    let p1 = p0 + skip;
    let b = data[p1];
    if b & 0x80 != 0 {
        if n - p1 < 2 {
            return String::new();
        }
        let bc = ((b & 0x7f) as usize) * 256 + (data[p1 + 1] as usize);
        let p2 = p1 + 2;
        let end = if bc <= n - p2 {
            p2 + bc
        } else {
            n
        };
        utf8_lossy(slice_subrange(data, p2, end))
    } else {
        let bc = b as usize;
        let p2 = p1 + 1;
        let end = if bc <= n - p2 {
            p2 + bc
        } else {
            n
        };
        utf8_lossy(slice_subrange(data, p2, end))
    }
}

/// Decodes the UTF-16 pool entry at `p0`.
fn decode_utf16_string(data: &[u8], p0: usize) -> (r: String)
    requires
        p0 < data@.len(),
    ensures
        r@ == spec_utf16_string(data@, p0 as int),
{
    let n = data.len();
    if n - p0 < 2 {
        return String::new();
    }
    let cc = le16(data, p0) as usize;
    let start = p0 + 2;
    let avail = (n - start) / 2;
    let k = if cc <= avail {
        cc
    } else {
        avail
    };
    let mut units: Vec<u16> = Vec::new();
    let mut j: usize = 0;
    while j < k
        invariant
            n == data@.len(),
            start + 2 * k <= n,
            k <= 0xffff,
            j <= k,
            units@.len() == j,
            forall|t: int| 0 <= t < j ==> units@[t] == spec_le16(data@, start + 2 * t),
        decreases k - j,
    {
        let u = le16(data, start + 2 * j);
        units.push(u);
        j += 1;
    }
    proof {
        assert(units@ =~= spec_utf16_units(data@, start as int, k as int));
    }
    utf16_lossy(units.as_slice())
}

/// Decodes the whole string pool chunk at `cs`.
fn decode_pool(data: &[u8], cs: usize) -> (r: Vec<String>)
    ensures
        r.deep_view() == spec_pool(data@, cs as int),
{
    let n = data.len();
    let lim = if cs <= n {
        n - cs
    } else {
        0
    };
    let count = if lim >= 12 {
        le32(data, cs + 8)
    } else {
        0
    };
    let flags = if lim >= 20 {
        le32(data, cs + 16)
    } else {
        0
    };
    let is_utf8 = flags & 0x100u32 != 0;
    let ss = if lim >= 24 {
        le32(data, cs + 20)
    } else {
        0
    };
    let count_us = count as usize;
    let mut strings: Vec<String> = Vec::new();
    let mut i: usize = 0;
    while i < count_us
        invariant
            n == data@.len(),
            lim == if cs <= n {
                n - cs
            } else {
                0
            },
            count == le32_or_zero(data@, cs + 8),
            flags == le32_or_zero(data@, cs + 16),
            is_utf8 == spec_pool_is_utf8(data@, cs as int),
            ss == le32_or_zero(data@, cs + 20),
            count_us == count,
            i <= count_us,
            strings@.len() == i,
            forall|j: int|
                0 <= j < i ==> strings@[j]@ == spec_pool_string(data@, cs as int, j),
        decreases count_us - i,
    {
        let need: u64 = 32u64 + (i as u64) * 4;
        let s: String = if need > lim as u64 {
            String::new()
        } else {
            let oe = cs + 28 + i * 4;
            let off = le32(data, oe);
            let rel: u64 = (ss as u64) + (off as u64);
            if rel >= lim as u64 {
                String::new()
            } else {
                let abs = cs + (rel as usize);
                if is_utf8 {
                    decode_utf8_string(data, abs)
                } else {
                    decode_utf16_string(data, abs)
                }
            }
        };
        strings.push(s);
        i += 1;
    }
    proof {
        assert(strings.deep_view() =~= spec_pool(data@, cs as int));
    }
    strings
}

/// Decodes the string pool chunk that starts at absolute offset `cs` and
/// returns all of its strings in order. Decoding never fails: any entry
/// that cannot be read degrades to the empty string.
pub fn parse_string_pool(data: &[u8], cs: usize) -> (r: Result<Vec<String>, AxmlError>)
    ensures
        r matches Ok(v) && v.deep_view() == spec_pool(data@, cs as int),
{
    Ok(decode_pool(data, cs))
}

/// A decode result with the string replaced by its view, so that contracts
/// can speak of the result as a whole.
pub open spec fn result_view(r: Result<String, AxmlError>) -> Result<Seq<char>, AxmlError> {
    match r {
        Ok(s) => Ok(s@),
        Err(e) => Err(e),
    }
}

/// The value the attribute search yields, scanning attribute slots `a` and
/// up of the element-start chunk at `epos`. A slot matches when its name
/// resolves to `attr` in `pool`; the value is the raw string reference if
/// that is a valid pool index, else the typed value's data when its type is
/// the string type; a match with no usable value is skipped. A slot that
/// runs past the buffer ends the search.
pub open spec fn spec_attr_search(
    d: Seq<u8>,
    pool: Seq<Seq<char>>,
    epos: int,
    count: int,
    a: int,
    attr: Seq<char>,
) -> Result<Seq<char>, AxmlError>
    decreases count - a,
{
    if a >= count {
        Err(AxmlError::AttributeNotFound)
    } else {
        let ao = epos + 36 + 20 * a;
        if ao + 20 > d.len() {
            Err(AxmlError::AttributeNotFound)
        } else {
            let name_i = spec_le32(d, ao + 4) as int;
            if name_i < pool.len() && pool[name_i] == attr {
                let raw = spec_le32(d, ao + 8) as int;
                if raw < pool.len() {
                    Ok(pool[raw])
                } else if d[ao + 15] == 3 {
                    let td = spec_le32(d, ao + 16) as int;
                    if td < pool.len() {
                        Ok(pool[td])
                    } else {
                        spec_attr_search(d, pool, epos, count, a + 1, attr)
                    }
                } else {
                    spec_attr_search(d, pool, epos, count, a + 1, attr)
                }
            } else {
                spec_attr_search(d, pool, epos, count, a + 1, attr)
            }
        }
    }
}

/// The result of walking top-level chunks from `pos` on, looking for the
/// first element-start chunk whose name resolves to `tag`. A zero chunk
/// size is a terminator; an unrecognized or truncated chunk is skipped by
/// its size; running out of buffer yields `ElementNotFound`.
pub open spec fn spec_walk(d: Seq<u8>, pos: int, tag: Seq<char>, attr: Seq<char>) -> Result<
    Seq<char>,
    AxmlError,
>
    decreases d.len() - pos,
{
    if pos < 0 || pos + 8 > d.len() {
        Err(AxmlError::ElementNotFound)
    } else {
        let ct = spec_le16(d, pos);
        let csize = spec_le32(d, pos + 4) as int;
        if csize == 0 {
            Err(AxmlError::ElementNotFound)
        } else if ct == CHUNK_ELEMENT_START && pos + 36 <= d.len() && {
            let ni = spec_le32(d, pos + 20) as int;
            ni < spec_pool(d, 8).len() && spec_pool(d, 8)[ni] == tag
        } {
            spec_attr_search(d, spec_pool(d, 8), pos, spec_le16(d, pos + 28) as int, 0, attr)
        } else if pos + csize + 8 > d.len() {
            Err(AxmlError::ElementNotFound)
        } else {
            spec_walk(d, pos + csize, tag, attr)
        }
    }
}

/// The value of attribute `attr` of the first element named `tag`, or the
/// error that stops the search. The document must open with the binary XML
/// magic word and carry the string pool as its first chunk.
pub open spec fn spec_find_attribute(d: Seq<u8>, tag: Seq<char>, attr: Seq<char>) -> Result<
    Seq<char>,
    AxmlError,
> {
    if d.len() < 8 || spec_le32(d, 0) != AXML_MAGIC {
        Err(AxmlError::NotBinaryXml)
    } else if d.len() < 10 || spec_le16(d, 8) != CHUNK_STRING_POOL {
        Err(AxmlError::StringPoolMissing)
    } else if d.len() < 16 {
        Err(AxmlError::StringPoolMissing)
    } else {
        spec_walk(d, 8 + spec_le32(d, 12) as int, tag, attr)
    }
}

/// Finds the first element named `tag` and returns the value of its
/// attribute `attr`.
#[verifier::loop_isolation(false)]
pub fn find_tag_attribute(data: &[u8], tag: &str, attr: &str) -> (r: Result<String, AxmlError>)
    ensures
        result_view(r) == spec_find_attribute(data@, tag@, attr@),
{
    let n = data.len();
    if n < 8 {
        return Err(AxmlError::NotBinaryXml);
    }
    if le32(data, 0) != AXML_MAGIC {
        return Err(AxmlError::NotBinaryXml);
    }
    if n < 10 {
        return Err(AxmlError::StringPoolMissing);
    }
    if le16(data, 8) != CHUNK_STRING_POOL {
        return Err(AxmlError::StringPoolMissing);
    }
    if n < 16 {
        return Err(AxmlError::StringPoolMissing);
    }
    let sp_size = le32(data, 12) as usize;
    let strings = decode_pool(data, 8);
    if sp_size > n - 8 {
        // The walk would start past the buffer: nothing more to scan.
        return Err(AxmlError::ElementNotFound);
    }
    let mut pos: usize = 8 + sp_size;
    let ghost start0: int = pos as int;
    while pos < n && n - pos >= 8
        invariant
            n == data@.len(),
            16 <= n,
            pos <= n,
            strings.deep_view() == spec_pool(data@, 8),
            spec_walk(data@, start0, tag@, attr@) == spec_walk(data@, pos as int, tag@, attr@),
        decreases n - pos,
    {
        let ct = le16(data, pos);
        let csize = le32(data, pos + 4) as usize;
        if csize == 0 {
            return Err(AxmlError::ElementNotFound);
        }
        if ct == CHUNK_ELEMENT_START && n - pos >= 36 {
            let name_idx = le32(data, pos + 20) as usize;
            if name_idx < strings.len() && crate::text::str_eq(strings[name_idx].as_str(), tag) {
                // Element found: scan its attribute slots.
                let count = le16(data, pos + 28) as usize;
                let ghost pool = spec_pool(data@, 8);
                let mut a: usize = 0;
                while a < count
                    invariant
                        n == data@.len(),
                        pos + 36 <= n,
                        count <= 0xffff,
                        a <= count,
                        strings.deep_view() == spec_pool(data@, 8),
                        pool == spec_pool(data@, 8),
                        spec_attr_search(data@, pool, pos as int, count as int, 0, attr@)
                            == spec_attr_search(data@, pool, pos as int, count as int, a as int, attr@),
                    decreases count - a,
                {
                    let a20 = a * 20;
                    if a20 + 56 > n - pos {
                        return Err(AxmlError::AttributeNotFound);
                    }
                    let ao = pos + 36 + a20;
                    let name_i = le32(data, ao + 4) as usize;
                    if name_i < strings.len() && crate::text::str_eq(
                        strings[name_i].as_str(),
                        attr,
                    ) {
                        let raw = le32(data, ao + 8) as usize;
                        if raw < strings.len() {
                            return Ok(strings[raw].clone());
                        }
                        if data[ao + 15] == 3 {
                            let td = le32(data, ao + 16) as usize;
                            if td < strings.len() {
                                return Ok(strings[td].clone());
                            }
                        }
                    }
                    a += 1;
                }
                return Err(AxmlError::AttributeNotFound);
            }
        }
        if csize <= n - pos {
            pos = pos + csize;
        } else {
            return Err(AxmlError::ElementNotFound);
        }
    }
    Err(AxmlError::ElementNotFound)
}

/// The package identifier a manifest document declares: the value of the
/// `package` attribute of its `manifest` element.
pub fn parse_package_name(data: &[u8]) -> (r: Result<String, AxmlError>)
    ensures
        result_view(r) == spec_find_attribute(data@, "manifest"@, "package"@),
{
    find_tag_attribute(data, "manifest", "package")
}

impl AxmlError {
    /// The message shown for this error.
    pub open spec fn spec_message(self) -> Seq<char> {
        match self {
            AxmlError::NotBinaryXml => "非二进制 XML 格式"@,
            AxmlError::StringPoolMissing => "未找到字符串池"@,
            AxmlError::ElementNotFound => "未找到 manifest 元素"@,
            AxmlError::AttributeNotFound => "manifest 元素未找到 package 属性"@,
        }
    }

    /// The message shown for this error.
    pub fn message(&self) -> (r: String)
        ensures
            r@ == self.spec_message(),
    {
        match self {
            AxmlError::NotBinaryXml => String::from_str("非二进制 XML 格式"),
            AxmlError::StringPoolMissing => String::from_str("未找到字符串池"),
            AxmlError::ElementNotFound => String::from_str("未找到 manifest 元素"),
            AxmlError::AttributeNotFound => String::from_str("manifest 元素未找到 package 属性"),
        }
    }
}

/// A buffer that does not open with the binary XML magic word is rejected
/// as `NotBinaryXml`, whatever else it holds and however long it is.
pub proof fn lemma_bad_magic_rejected(d: Seq<u8>, tag: Seq<char>, attr: Seq<char>)
    requires
        d.len() < 8 || spec_le32(d, 0) != AXML_MAGIC,
    ensures
        spec_find_attribute(d, tag, attr) == Err::<Seq<char>, AxmlError>(AxmlError::NotBinaryXml),
{
}

/// A pool entry whose string position lies at or past the end of the
/// buffer resolves to the empty string: decoding degrades instead of
/// failing.
pub proof fn lemma_out_of_range_string_is_empty(d: Seq<u8>, cs: int, i: int)
    requires
        0 <= cs,
        0 <= i,
        cs + le32_or_zero(d, cs + 20) + spec_le32(d, cs + 28 + 4 * i) >= d.len(),
    ensures
        spec_pool_string(d, cs, i) == Seq::<char>::empty(),
{
}

/// Decoding is a pure function of the buffer: any two results that both
/// satisfy the decode contract on the same inputs are equal.
pub proof fn lemma_decode_deterministic(
    d: Seq<u8>,
    tag: Seq<char>,
    attr: Seq<char>,
    r1: Result<String, AxmlError>,
    r2: Result<String, AxmlError>,
)
    requires
        result_view(r1) == spec_find_attribute(d, tag, attr),
        result_view(r2) == spec_find_attribute(d, tag, attr),
    ensures
        result_view(r1) == result_view(r2),
{
}

} // verus!

