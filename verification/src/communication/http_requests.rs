//! Records that can be written out as a status payload.

use vstd::prelude::*;
use vstd::string::StringExecFns;

verus! {

/// The texts that a list of strings holds.
pub open spec fn texts(strings: Seq<String>) -> Seq<Seq<char>> {
    Seq::new(strings.len(), |i: int| strings[i]@)
}

/// The `i`-th of `texts`, and the empty text where there is none.
pub open spec fn text_at(texts: Seq<Seq<char>>, i: int) -> Seq<char> {
    if 0 <= i < texts.len() {
        texts[i]
    } else {
        Seq::empty()
    }
}

/// A record with a status payload.
///
/// The record holds its single-precision fields as bit patterns and cannot
/// render them. The caller renders each of `floats()` in decimal and hands the
/// texts to `serialize`, in the same order.
pub trait RequestSerializable {
    /// The single-precision fields, in the order in which `payload` takes
    /// their texts.
    spec fn float_fields(&self) -> Seq<u32>;

    /// The payload, given the decimal texts of the single-precision fields.
    /// A text that `floats` lacks is taken as empty.
    spec fn payload(&self, floats: Seq<Seq<char>>) -> Seq<char>;

    /// The single-precision fields to render.
    fn floats(&self) -> (bits: Vec<u32>)
        ensures
            bits@ == self.float_fields(),
    ;

    /// Writes the record out as its payload.
    fn serialize(&self, floats: &Vec<String>) -> (s: String)
        ensures
            s@ == self.payload(texts(floats@)),
    ;
}

/// The address to which a record is posted: `url` followed by the record's
/// payload.
pub fn request_url<T: RequestSerializable>(serializable: &T, floats: &Vec<String>, url: &str) -> (s:
    String)
    ensures
        s@ == url@ + serializable.payload(texts(floats@)),
{
    let query = serializable.serialize(floats);
    let mut s = String::from_str(url);
    s.append(query.as_str());
    s
}

} // verus!
