//! The two file protocols: the relay that stores each incoming stream under
//! a numbered name, and the batch in which the node's own files go
//! downstream.

use crate::communication::http_requests::texts;
use crate::communication::tcp::ReadEvent;
use crate::text::{
    ends_with, has_suffix, lemma_signed_decimal_injective, push_signed_decimal, signed_decimal,
};
use byteorder::{BigEndian, WriteBytesExt};
use vstd::prelude::*;
use vstd::relations::{sorted_by, total_ordering};
use vstd::seq_lib::{
    lemma_flatten_concat, lemma_sorted_unique, to_multiset_build, to_multiset_insert,
};
use vstd::string::StringExecFns;
use vstd::utf8::{encode_utf8, encode_utf8_decode_utf8};

verus! {

/// The name under which the relay stores the stream with this sequence
/// number: the base name, the number, and the extension `.dwm`.
pub open spec fn relay_file_name(base: Seq<char>, sequence: int) -> Seq<char> {
    base + signed_decimal(sequence) + ".dwm"@
}

/// Streams with different sequence numbers are stored under different names.
pub proof fn lemma_relay_names_distinct(base: Seq<char>, i: int, j: int)
    requires
        i != j,
    ensures
        relay_file_name(base, i) != relay_file_name(base, j),
{
    let a = relay_file_name(base, i);
    let b = relay_file_name(base, j);
    if a == b {
        let di = signed_decimal(i);
        let dj = signed_decimal(j);
        assert(a.len() == base.len() + di.len() + ".dwm"@.len());
        assert(b.len() == base.len() + dj.len() + ".dwm"@.len());
        assert(di =~= a.subrange(base.len() as int, (base.len() + di.len()) as int));
        assert(dj =~= b.subrange(base.len() as int, (base.len() + dj.len()) as int));
        lemma_signed_decimal_injective(i, j);
    }
}

/// The names that a relay gives to `n` streams one after the other, when its
/// counter stands at `counter` before the first: each stream gets the name of
/// the counter's value, and the counter is stepped.
pub open spec fn names_issued(base: Seq<char>, counter: int, n: nat) -> Seq<Seq<char>>
    decreases n,
{
    if n == 0 {
        Seq::empty()
    } else {
        seq![relay_file_name(base, counter)] + names_issued(base, counter + 1, (n - 1) as nat)
    }
}

/// Streams that arrive one after the other are numbered in the order of
/// their arrival, without a gap, from the counter's first value on, and no
/// two of them share a name.
pub proof fn lemma_names_issued(base: Seq<char>, counter: int, n: nat)
    ensures
        names_issued(base, counter, n).len() == n,
        forall|k: int|
            0 <= k < n ==> #[trigger] names_issued(base, counter, n)[k] == relay_file_name(
                base,
                counter + k,
            ),
        forall|i: int, j: int|
            0 <= i < n && 0 <= j < n && i != j ==> names_issued(base, counter, n)[i]
                != names_issued(base, counter, n)[j],
    decreases n,
{
    if n > 0 {
        lemma_names_issued(base, counter + 1, (n - 1) as nat);
        let rest = names_issued(base, counter + 1, (n - 1) as nat);
        let all = names_issued(base, counter, n);
        assert forall|k: int| 0 <= k < n implies #[trigger] all[k] == relay_file_name(
            base,
            counter + k,
        ) by {
            if k > 0 {
                assert(all[k] == rest[k - 1]);
            }
        }
        assert forall|i: int, j: int| 0 <= i < n && 0 <= j < n && i != j implies all[i]
            != all[j] by {
            lemma_relay_names_distinct(base, counter + i, counter + j);
        }
    }
}

/// The name for the next incoming stream. The counter is stepped before the
/// name is used, so that the streams are numbered in the order in which
/// their connections take the counter, the first of them with the counter's
/// initial value.
pub fn next_file_name(file_name: &str, counter: &mut i32) -> (name: String)
    requires
        *old(counter) < i32::MAX,
    ensures
        name@ == relay_file_name(file_name@, *old(counter) as int),
        *final(counter) == *old(counter) + 1,
{
    let mut name = String::from_str(file_name);
    push_signed_decimal(&mut name, *counter as i64);
    name.append(".dwm");
    *counter = *counter + 1;
    name
}

/// What the relay does with what a read on its connection gave.
#[derive(Clone, Copy, Debug, PartialEq, Eq, Structural)]
pub enum RelayAction {
    /// Append the bytes that came, so many of them, to the file.
    Store(usize),
    /// Drop the bytes that came: there is no file to put them in.
    Discard,
    /// The stream is over: end.
    Finish,
}

/// Decides what the relay does after a read. The stream ends when the peer
/// closes it or a read fails. Until then every byte goes to the file, in the
/// order of arrival; where the file could not be created, the stream is read
/// to its end all the same and dropped.
pub fn relay_step(file_open: bool, event: ReadEvent) -> (action: RelayAction)
    ensures
        action == match event {
            ReadEvent::Failed => RelayAction::Finish,
            ReadEvent::Bytes(n) => if n == 0 {
                RelayAction::Finish
            } else if file_open {
                RelayAction::Store(n)
            } else {
                RelayAction::Discard
            },
        },
{
    match event {
        ReadEvent::Failed => RelayAction::Finish,
        ReadEvent::Bytes(n) => if n == 0 {
            RelayAction::Finish
        } else if file_open {
            RelayAction::Store(n)
        } else {
            RelayAction::Discard
        },
    }
}

/// The order of byte strings in which names are sorted: at the first byte
/// that differs the smaller byte decides, and a string comes before those
/// that it begins.
pub open spec fn lex_le(a: Seq<u8>, b: Seq<u8>) -> bool
    decreases a.len(),
{
    if a.len() == 0 {
        true
    } else if b.len() == 0 {
        false
    } else if a[0] != b[0] {
        a[0] < b[0]
    } else {
        lex_le(a.drop_first(), b.drop_first())
    }
}

/// Of two byte strings one comes before the other, or both ways.
pub proof fn lemma_lex_total(a: Seq<u8>, b: Seq<u8>)
    ensures
        lex_le(a, b) || lex_le(b, a),
    decreases a.len(),
{
    if a.len() > 0 && b.len() > 0 && a[0] == b[0] {
        lemma_lex_total(a.drop_first(), b.drop_first());
    }
}

/// What comes before a string comes before all that the string comes before.
pub proof fn lemma_lex_transitive(a: Seq<u8>, b: Seq<u8>, c: Seq<u8>)
    requires
        lex_le(a, b),
        lex_le(b, c),
    ensures
        lex_le(a, c),
    decreases a.len(),
{
    if a.len() > 0 && b.len() > 0 && c.len() > 0 && a[0] == b[0] && b[0] == c[0] {
        lemma_lex_transitive(a.drop_first(), b.drop_first(), c.drop_first());
    }
}

/// Two strings that come before each other are one string.
pub proof fn lemma_lex_antisymmetric(a: Seq<u8>, b: Seq<u8>)
    requires
        lex_le(a, b),
        lex_le(b, a),
    ensures
        a == b,
    decreases a.len(),
{
    if a.len() > 0 && b.len() > 0 {
        lemma_lex_antisymmetric(a.drop_first(), b.drop_first());
        assert(a =~= seq![a[0]] + a.drop_first());
        assert(b =~= seq![b[0]] + b.drop_first());
    } else {
        assert(a =~= b);
    }
}

/// Every string comes before itself.
pub proof fn lemma_lex_reflexive(a: Seq<u8>)
    ensures
        lex_le(a, a),
    decreases a.len(),
{
    if a.len() > 0 {
        lemma_lex_reflexive(a.drop_first());
    }
}

/// Tells whether `a` comes before `b`, or is `b`.
pub fn bytes_le(a: &[u8], b: &[u8]) -> (r: bool)
    ensures
        r == lex_le(a@, b@),
{
    let mut i: usize = 0;
    assert(a@.skip(0) =~= a@ && b@.skip(0) =~= b@);
    loop
        invariant
            i <= a@.len(),
            i <= b@.len(),
            lex_le(a@, b@) == lex_le(a@.skip(i as int), b@.skip(i as int)),
        decreases a@.len() - i,
    {
        if i == a.len() {
            return true;
        }
        if i == b.len() {
            return false;
        }
        if a[i] != b[i] {
            return a[i] < b[i];
        }
        assert(a@.skip(i as int).drop_first() =~= a@.skip(i + 1));
        assert(b@.skip(i as int).drop_first() =~= b@.skip(i + 1));
        i += 1;
    }
}

/// The order of names: that of their bytes.
pub open spec fn name_le(a: Seq<char>, b: Seq<char>) -> bool {
    lex_le(encode_utf8(a), encode_utf8(b))
}

/// Whether each of `names` comes before all that follow it.
pub open spec fn sorted(names: Seq<Seq<char>>) -> bool {
    forall|i: int, j: int| 0 <= i < j < names.len() ==> name_le(names[i], names[j])
}

/// The order of names is a total order.
pub proof fn lemma_name_order_total()
    ensures
        total_ordering(|a: Seq<char>, b: Seq<char>| name_le(a, b)),
{
    let leq = |a: Seq<char>, b: Seq<char>| name_le(a, b);
    assert forall|a: Seq<char>| #[trigger] leq(a, a) by {
        lemma_lex_reflexive(encode_utf8(a));
    }
    assert forall|a: Seq<char>, b: Seq<char>| #[trigger] leq(a, b) && #[trigger] leq(b, a) implies a
        == b by {
        lemma_lex_antisymmetric(encode_utf8(a), encode_utf8(b));
        encode_utf8_decode_utf8(a);
        encode_utf8_decode_utf8(b);
    }
    assert forall|a: Seq<char>, b: Seq<char>, c: Seq<char>| #[trigger]
        leq(a, b) && #[trigger] leq(b, c) implies leq(a, c) by {
        lemma_lex_transitive(encode_utf8(a), encode_utf8(b), encode_utf8(c));
    }
    assert forall|a: Seq<char>, b: Seq<char>| #[trigger] leq(a, b) || #[trigger] leq(b, a) by {
        lemma_lex_total(encode_utf8(a), encode_utf8(b));
    }
}

/// There is one way only to sort given names: two sorted lists that hold the
/// same names, each as often as the other, are one list.
pub proof fn lemma_sorted_names_unique(x: Seq<Seq<char>>, y: Seq<Seq<char>>)
    requires
        sorted(x),
        sorted(y),
        x.to_multiset() == y.to_multiset(),
    ensures
        x == y,
{
    let leq = |a: Seq<char>, b: Seq<char>| name_le(a, b);
    lemma_name_order_total();
    assert(sorted_by(x, leq));
    assert(sorted_by(y, leq));
    lemma_sorted_unique(x, y, leq);
}

/// One entry of a directory: its name, and whether it is a regular file.
pub struct Entry {
    pub name: String,
    pub is_file: bool,
}

/// Whether the entry is one of the files to send: a regular file whose name
/// ends in `.pcm`.
pub open spec fn is_eligible(entry: Entry) -> bool {
    entry.is_file && has_suffix(encode_utf8(entry.name@), encode_utf8(".pcm"@))
}

/// The names of the files to send among `entries`, in the order of the
/// entries.
pub open spec fn eligible(entries: Seq<Entry>) -> Seq<Seq<char>>
    decreases entries.len(),
{
    if entries.len() == 0 {
        Seq::empty()
    } else if is_eligible(entries.last()) {
        eligible(entries.drop_last()).push(entries.last().name@)
    } else {
        eligible(entries.drop_last())
    }
}

/// The names of the files to send, sorted: each name of a regular file in
/// `entries` that ends in `.pcm`, as often as it occurs there.
pub fn eligible_files(entries: &Vec<Entry>) -> (files: Vec<String>)
    ensures
        sorted(texts(files@)),
        texts(files@).to_multiset() == eligible(entries@).to_multiset(),
{
    let mut files: Vec<String> = Vec::new();
    assert(texts(files@) =~= eligible(entries@.take(0)));
    let mut i: usize = 0;
    while i < entries.len()
        invariant
            i <= entries@.len(),
            sorted(texts(files@)),
            texts(files@).to_multiset() == eligible(entries@.take(i as int)).to_multiset(),
        decreases entries@.len() - i,
    {
        let entry = &entries[i];
        assert(entries@.take(i + 1).drop_last() =~= entries@.take(i as int));
        if entry.is_file && ends_with(entry.name.as_str().as_bytes(), ".pcm".as_bytes()) {
            let ghost before = texts(files@);
            let mut at: usize = 0;
            while at < files.len() && bytes_le(
                files[at].as_str().as_bytes(),
                entry.name.as_str().as_bytes(),
            )
                invariant
                    at <= files@.len(),
                    forall|k: int| 0 <= k < at ==> name_le(#[trigger] texts(files@)[k], entry.name@),
                decreases files@.len() - at,
            {
                at += 1;
            }
            proof {
                if at < files@.len() {
                    lemma_lex_total(encode_utf8(before[at as int]), encode_utf8(entry.name@));
                    assert forall|k: int| at <= k < before.len() implies name_le(
                        entry.name@,
                        #[trigger] before[k],
                    ) by {
                        if k > at {
                            assert(name_le(before[at as int], before[k]));
                            lemma_lex_transitive(
                                encode_utf8(entry.name@),
                                encode_utf8(before[at as int]),
                                encode_utf8(before[k]),
                            );
                        }
                    }
                }
                to_multiset_insert(before, at as int, entry.name@);
                to_multiset_build(eligible(entries@.take(i as int)), entry.name@);
            }
            files.insert(at, entry.name.clone());
            assert(texts(files@) =~= before.insert(at as int, entry.name@));
            assert(sorted(texts(files@))) by {
                let after = texts(files@);
                assert forall|x: int, y: int| 0 <= x < y < after.len() implies name_le(
                    after[x],
                    after[y],
                ) by {
                    if y < at {
                        assert(after[x] == before[x] && after[y] == before[y]);
                    } else if y == at {
                        assert(after[x] == before[x]);
                    } else if x < at {
                        assert(after[x] == before[x] && after[y] == before[y - 1]);
                    } else if x == at {
                        assert(after[y] == before[y - 1]);
                    } else {
                        assert(after[x] == before[x - 1] && after[y] == before[y - 1]);
                    }
                }
            }
        }
        i += 1;
    }
    assert(entries@.take(i as int) =~= entries@);
    files
}

/// The four bytes that spell `x`, most significant byte first.
pub open spec fn be_bytes(x: u32) -> Seq<u8> {
    seq![
        (x as int / 16777216) as u8,
        (x as int / 65536 % 256) as u8,
        (x as int / 256 % 256) as u8,
        (x as int % 256) as u8,
    ]
}

/// What is left of a count in 32 bits.
pub open spec fn wrapped(n: nat) -> u32 {
    (n % 0x1_0000_0000) as u32
}

/// What each of `files` holds.
pub open spec fn contents(files: Seq<Vec<u8>>) -> Seq<Seq<u8>> {
    Seq::new(files.len(), |i: int| files[i]@)
}

/// The head of a batch: the node's id, the number of files, and the size of
/// the first of them, which the receiver takes for the size of each. A batch
/// without files has the size zero.
pub open spec fn batch_header(node_number: u8, files: Seq<Seq<u8>>) -> Seq<u8> {
    seq![node_number] + be_bytes(wrapped(files.len())) + be_bytes(
        wrapped(
            if files.len() > 0 {
                files[0].len()
            } else {
                0
            },
        ),
    )
}

/// The batch in which `files` go downstream: the head, then what the files
/// hold, one after the other with nothing between them.
pub open spec fn batch(node_number: u8, files: Seq<Seq<u8>>) -> Seq<u8> {
    batch_header(node_number, files) + files.flatten()
}

/// A batch without files is its head alone, with count and size zero.
pub proof fn lemma_empty_batch(node_number: u8)
    ensures
        batch(node_number, Seq::empty()) == seq![node_number, 0u8, 0u8, 0u8, 0u8, 0u8, 0u8, 0u8, 0u8],
{
    assert(Seq::<Seq<u8>>::empty().flatten() =~= Seq::<u8>::empty());
    assert(batch(node_number, Seq::empty()) =~= seq![
        node_number,
        0u8,
        0u8,
        0u8,
        0u8,
        0u8,
        0u8,
        0u8,
        0u8,
    ]);
}

/// `WriteBytesExt::write_u8` of byteorder, on a byte vector: the byte is
/// appended. Writing to a vector does not fail.
#[verifier::external_body]
fn put_u8(out: &mut Vec<u8>, n: u8)
    ensures
        final(out)@ == old(out)@.push(n),
{
    let _ = out.write_u8(n);
}

/// `WriteBytesExt::write_u32` of byteorder with `BigEndian`, on a byte
/// vector: the four bytes of `n` are appended, the most significant first.
/// Writing to a vector does not fail.
#[verifier::external_body]
fn put_u32_be(out: &mut Vec<u8>, n: u32)
    ensures
        final(out)@ == old(out)@ + be_bytes(n),
{
    let _ = out.write_u32::<BigEndian>(n);
}

fn wrap(n: usize) -> (r: u32)
    ensures
        r == wrapped(n as nat),
{
    let wide: u64 = n as u64;
    let r = #[verifier::truncate] (wide as u32);
    assert(r == wide % 0x1_0000_0000) by (bit_vector)
        requires
            r == #[verifier::truncate] (wide as u32),
    ;
    r
}

/// Lays out the batch in which `files` go downstream from the node
/// `node_number`.
pub fn bulk_stream(node_number: u8, files: &Vec<Vec<u8>>) -> (out: Vec<u8>)
    ensures
        out@ == batch(node_number, contents(files@)),
{
    let ghost held = contents(files@);
    let n_files = wrap(files.len());
    let f_size = if files.len() > 0 {
        wrap(files[0].len())
    } else {
        0
    };
    let mut out: Vec<u8> = Vec::new();
    put_u8(&mut out, node_number);
    put_u32_be(&mut out, n_files);
    put_u32_be(&mut out, f_size);
    let ghost head = out@;
    assert(head =~= batch_header(node_number, held));
    assert(held.take(0).flatten() =~= Seq::<u8>::empty());
    let mut i: usize = 0;
    while i < files.len()
        invariant
            i <= files@.len(),
            held == contents(files@),
            out@ == head + held.take(i as int).flatten(),
        decreases files@.len() - i,
    {
        out.extend_from_slice(files[i].as_slice());
        proof {
            assert(held.take(i + 1) =~= held.take(i as int) + seq![files@[i as int]@]);
            lemma_flatten_concat(held.take(i as int), seq![files@[i as int]@]);
            seq![files@[i as int]@].lemma_flatten_one_element();
        }
        i += 1;
    }
    assert(held.take(i as int) =~= held);
    out
}

} // verus!
