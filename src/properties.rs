//! The purge-properties directive: a little-endian `u32` size followed by zlib-compressed UTF-8
//! text that lists `<interface><path>` entries separated by `;`.
use std::io::Read;
use vstd::prelude::*;
use vstd::utf8::{decode_utf8, valid_utf8};
use crate::text::{chars_of, chars_view, same_chars, split_chars, split_on};

verus! {

/// Errors of a purge-properties payload.
#[derive(Debug, Clone, Copy, PartialEq, Eq, Structural)]
pub enum PropertiesError {
    /// Fewer than four bytes: no room for the size.
    PayloadTooShort,
    /// The bytes after the size are not a zlib stream.
    Decompress,
    /// The decompressed text is not UTF-8.
    Utf8,
    /// The size does not match the length of the decompressed text.
    SizeMismatch,
}

/// The bytes that flate2's zlib decoder reads out of `data` to the end, or `None` when the
/// decoder reports an error. It depends on `data` alone.
pub uninterp spec fn zlib_inflate(data: Seq<u8>) -> Option<Seq<u8>>;

/// Relies on flate2's `read::ZlibDecoder`: reading it to the end yields the decompressed bytes
/// of the stream, or an error when the stream is not valid zlib.
#[verifier::external_body]
fn inflate(data: &[u8]) -> (r: Option<Vec<u8>>)
    ensures
        match r {
            Some(v) => zlib_inflate(data@) == Some(v@),
            None => zlib_inflate(data@) is None,
        },
{
    let mut out = Vec::new();
    match flate2::read::ZlibDecoder::new(data).read_to_end(&mut out) {
        Ok(_) => Some(out),
        Err(_) => None,
    }
}

/// Relies on std's `String::from_utf8`: it succeeds exactly on valid UTF-8 and the string then
/// holds the decoded characters.
#[verifier::external_body]
fn utf8_text(bytes: Vec<u8>) -> (r: Option<String>)
    ensures
        match r {
            Some(s) => valid_utf8(bytes@) && s@ == decode_utf8(bytes@),
            None => !valid_utf8(bytes@),
        },
{
    String::from_utf8(bytes).ok()
}

/// The entries listed by a purge text: the non-empty pieces between the `;`.
pub open spec fn purge_entries(text: Seq<char>) -> Set<Seq<char>> {
    Set::new(|e: Seq<char>| e.len() > 0 && split_on(text, ';').contains(e))
}

/// The little-endian `u32` in the first four bytes.
pub open spec fn le_u32(b: Seq<u8>) -> u32 {
    (b[0] as u32) | ((b[1] as u32) << 8u32) | ((b[2] as u32) << 16u32) | ((b[3] as u32) << 24u32)
}

/// The set of properties that the server still knows.
#[derive(Debug)]
pub struct PurgeSet {
    entries: Vec<Vec<char>>,
}

impl View for PurgeSet {
    type V = Set<Seq<char>>;

    closed spec fn view(&self) -> Set<Seq<char>> {
        chars_view(self.entries@).to_set()
    }
}

impl PurgeSet {
    /// The entries of a purge text.
    pub fn from_text(text: &str) -> (r: PurgeSet)
        ensures
            r@ == purge_entries(text@),
    {
        let cs = chars_of(text);
        let pieces = split_chars(&cs, ';');
        let ghost all = chars_view(pieces@);
        let mut entries: Vec<Vec<char>> = Vec::new();
        let mut i: usize = 0;
        while i < pieces.len()
            invariant
                all == chars_view(pieces@),
                all == split_on(text@, ';'),
                i <= pieces@.len(),
                forall|k: int| 0 <= k < entries@.len() ==> (#[trigger] entries@[k])@.len() > 0 && all.contains(entries@[k]@),
                forall|j: int| 0 <= j < i && (#[trigger] all[j]).len() > 0 ==> chars_view(entries@).contains(all[j]),
            decreases pieces@.len() - i,
        {
            if pieces[i].len() > 0 {
                let ghost before = entries@;
                entries.push(crate::text::copy_chars(&pieces[i]));
                proof {
                    assert(all[i as int] == pieces@[i as int]@);
                    assert(chars_view(entries@)[before.len() as int] == all[i as int]);
                    assert forall|j: int| 0 <= j < i + 1 && (#[trigger] all[j]).len() > 0 implies chars_view(entries@).contains(all[j]) by {
                        if j < i {
                            let k = choose|k: int| 0 <= k < chars_view(before).len() && chars_view(before)[k] == all[j];
                            assert(chars_view(entries@)[k] == all[j]);
                        }
                    }
                    assert forall|k: int| 0 <= k < entries@.len() implies (#[trigger] entries@[k])@.len() > 0 && all.contains(entries@[k]@) by {
                        if k < before.len() {
                            assert(entries@[k] == before[k]);
                        } else {
                            assert(all[i as int] == entries@[k]@);
                        }
                    }
                }
            }
            i = i + 1;
        }
        let r = PurgeSet { entries };
        proof {
            assert forall|e: Seq<char>| r@.contains(e) <==> purge_entries(text@).contains(e) by {
                if r@.contains(e) {
                    let k = choose|k: int| 0 <= k < chars_view(r.entries@).len() && chars_view(r.entries@)[k] == e;
                    assert(r.entries@[k]@ == e);
                }
                if purge_entries(text@).contains(e) {
                    let j = choose|j: int| 0 <= j < all.len() && all[j] == e;
                    assert(chars_view(r.entries@).contains(all[j]));
                }
            }
            assert(r@ =~= purge_entries(text@));
        }
        r
    }

    /// Whether the directive lists the property `interface` + `path`.
    pub fn contains(&self, interface: &str, path: &str) -> (r: bool)
        ensures
            r == self@.contains(interface@ + path@),
    {
        let mut key = String::from_str(interface);
        key.append(path);
        let kc = chars_of(key.as_str());
        let mut i: usize = 0;
        while i < self.entries.len()
            invariant
                kc@ == interface@ + path@,
                i <= self.entries@.len(),
                forall|k: int| 0 <= k < i ==> (#[trigger] self.entries@[k])@ != kc@,
            decreases self.entries@.len() - i,
        {
            if same_chars(&self.entries[i], &kc) {
                assert(chars_view(self.entries@)[i as int] == kc@);
                return true;
            }
            i = i + 1;
        }
        proof {
            if self@.contains(kc@) {
                let k = choose|k: int| 0 <= k < chars_view(self.entries@).len() && chars_view(self.entries@)[k] == kc@;
                assert(self.entries@[k]@ == kc@);
            }
        }
        false
    }
}

/// The purge set from the size field and the decompressed bytes.
pub fn properties_from_inflated(size: u32, inflated: Vec<u8>) -> (r: Result<PurgeSet, PropertiesError>)
    ensures
        size as int != inflated@.len() ==> r == Err::<PurgeSet, PropertiesError>(PropertiesError::SizeMismatch),
        size as int == inflated@.len() && !valid_utf8(inflated@) ==> r == Err::<PurgeSet, PropertiesError>(PropertiesError::Utf8),
        size as int == inflated@.len() && valid_utf8(inflated@) ==> (r matches Ok(s) && s@ == purge_entries(decode_utf8(inflated@))),
{
    if size as usize != inflated.len() {
        return Err(PropertiesError::SizeMismatch);
    }
    match utf8_text(inflated) {
        Some(text) => Ok(PurgeSet::from_text(text.as_str())),
        None => Err(PropertiesError::Utf8),
    }
}

/// What a purge-properties payload decodes to.
pub open spec fn purge_decoded(b: Seq<u8>) -> Result<Set<Seq<char>>, PropertiesError> {
    if b.len() < 4 {
        Err(PropertiesError::PayloadTooShort)
    } else {
        match zlib_inflate(b.skip(4)) {
            None => Err(PropertiesError::Decompress),
            Some(t) => if le_u32(b) as int != t.len() {
                Err(PropertiesError::SizeMismatch)
            } else if !valid_utf8(t) {
                Err(PropertiesError::Utf8)
            } else {
                Ok(purge_entries(decode_utf8(t)))
            },
        }
    }
}

/// Decodes a purge-properties payload.
pub fn extract_set_properties(bdata: &[u8]) -> (r: Result<PurgeSet, PropertiesError>)
    ensures
        match purge_decoded(bdata@) {
            Ok(listed) => r matches Ok(s) && s@ == listed,
            Err(e) => r == Err::<PurgeSet, PropertiesError>(e),
        },
{
    if bdata.len() < 4 {
        return Err(PropertiesError::PayloadTooShort);
    }
    let size: u32 = (bdata[0] as u32) | ((bdata[1] as u32) << 8u32) | ((bdata[2] as u32) << 16u32) | ((bdata[3] as u32) << 24u32);
    let rest = crate::text::slice_tail(bdata, 4);
    match inflate(rest) {
        Some(inflated) => properties_from_inflated(size, inflated),
        None => Err(PropertiesError::Decompress),
    }
}

} // verus!
