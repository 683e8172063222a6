//! The bytes in which the metadata file holds what it records.

use vstd::bytes::{
    lemma_auto_spec_u32_to_from_le_bytes, lemma_auto_spec_u64_to_from_le_bytes,
    spec_u32_from_le_bytes, spec_u32_to_le_bytes, spec_u64_from_le_bytes, spec_u64_to_le_bytes,
};
use vstd::prelude::*;
use vstd::utf8::{encode_utf8, encode_utf8_decode_utf8};

verus! {

/// The bits of a signed number, read as an unsigned one.
pub open spec fn i32_bits(v: i32) -> u32 {
    if v >= 0 {
        v as u32
    } else {
        (v + 0x1_0000_0000) as u32
    }
}

/// A length: eight bytes, the low one first.
pub open spec fn length_bytes(n: nat) -> Seq<u8> {
    spec_u64_to_le_bytes(n as u64)
}

/// A string: the length of its UTF-8 bytes, then those bytes.
pub open spec fn string_bytes(s: Seq<char>) -> Seq<u8> {
    length_bytes(encode_utf8(s).len()) + encode_utf8(s)
}

/// Strings one after the other.
pub open spec fn strings_bytes(list: Seq<Seq<char>>) -> Seq<u8>
    decreases list.len(),
{
    if list.len() == 0 {
        Seq::empty()
    } else {
        string_bytes(list.first()) + strings_bytes(list.drop_first())
    }
}

/// Pairs of strings one after the other.
pub open spec fn pairs_bytes(list: Seq<(Seq<char>, Seq<char>)>) -> Seq<u8>
    decreases list.len(),
{
    if list.len() == 0 {
        Seq::empty()
    } else {
        string_bytes(list.first().0) + string_bytes(list.first().1) + pairs_bytes(
            list.drop_first(),
        )
    }
}

/// The metadata: the version in four bytes, the low one first; the number of
/// empty files and their names; the number of files, and the name and the
/// backing name of each.
pub open spec fn metadata_bytes(
    version: i32,
    empty_files: Seq<Seq<char>>,
    files: Seq<(Seq<char>, Seq<char>)>,
) -> Seq<u8> {
    spec_u32_to_le_bytes(i32_bits(version)) + length_bytes(empty_files.len()) + strings_bytes(
        empty_files,
    ) + length_bytes(files.len()) + pairs_bytes(files)
}

proof fn lemma_length_bytes(n1: nat, n2: nat, t1: Seq<u8>, t2: Seq<u8>)
    requires
        n1 <= u64::MAX,
        n2 <= u64::MAX,
        length_bytes(n1) + t1 == length_bytes(n2) + t2,
    ensures
        n1 == n2,
        t1 == t2,
{
    lemma_auto_spec_u64_to_from_le_bytes();
    let s = length_bytes(n1) + t1;
    assert(s.take(8) =~= length_bytes(n1));
    assert(s.take(8) =~= length_bytes(n2));
    assert(s.skip(8) =~= t1);
    assert(s.skip(8) =~= t2);
    assert(spec_u64_from_le_bytes(length_bytes(n1)) == n1 as u64);
    assert(spec_u64_from_le_bytes(length_bytes(n2)) == n2 as u64);
}

proof fn lemma_length_bytes_len(n: nat)
    ensures
        length_bytes(n).len() == 8,
{
    lemma_auto_spec_u64_to_from_le_bytes();
}

proof fn lemma_string_bytes(s1: Seq<char>, s2: Seq<char>, t1: Seq<u8>, t2: Seq<u8>)
    requires
        string_bytes(s1).len() <= u64::MAX,
        string_bytes(s2).len() <= u64::MAX,
        string_bytes(s1) + t1 == string_bytes(s2) + t2,
    ensures
        s1 == s2,
        t1 == t2,
{
    let b1 = encode_utf8(s1);
    let b2 = encode_utf8(s2);
    assert(string_bytes(s1) + t1 =~= length_bytes(b1.len()) + (b1 + t1));
    assert(string_bytes(s2) + t2 =~= length_bytes(b2.len()) + (b2 + t2));
    lemma_length_bytes(b1.len(), b2.len(), b1 + t1, b2 + t2);
    let s = b1 + t1;
    let n = b1.len() as int;
    assert(s.take(n) =~= b1);
    assert(s.take(n) =~= b2);
    assert(s.skip(n) =~= t1);
    assert(s.skip(n) =~= t2);
    encode_utf8_decode_utf8(s1);
    encode_utf8_decode_utf8(s2);
}

proof fn lemma_strings_bytes(
    l1: Seq<Seq<char>>,
    l2: Seq<Seq<char>>,
    t1: Seq<u8>,
    t2: Seq<u8>,
)
    requires
        l1.len() == l2.len(),
        strings_bytes(l1).len() <= u64::MAX,
        strings_bytes(l2).len() <= u64::MAX,
        strings_bytes(l1) + t1 == strings_bytes(l2) + t2,
    ensures
        l1 == l2,
        t1 == t2,
    decreases l1.len(),
{
    if l1.len() == 0 {
        assert(strings_bytes(l1) + t1 =~= t1);
        assert(strings_bytes(l2) + t2 =~= t2);
        assert(l1 =~= l2);
    } else {
        let r1 = l1.drop_first();
        let r2 = l2.drop_first();
        assert(strings_bytes(l1) + t1 =~= string_bytes(l1.first()) + (strings_bytes(r1) + t1));
        assert(strings_bytes(l2) + t2 =~= string_bytes(l2.first()) + (strings_bytes(r2) + t2));
        lemma_string_bytes(
            l1.first(),
            l2.first(),
            strings_bytes(r1) + t1,
            strings_bytes(r2) + t2,
        );
        lemma_strings_bytes(r1, r2, t1, t2);
        assert(l1 =~= seq![l1.first()] + r1);
        assert(l2 =~= seq![l2.first()] + r2);
    }
}

proof fn lemma_pairs_bytes(
    l1: Seq<(Seq<char>, Seq<char>)>,
    l2: Seq<(Seq<char>, Seq<char>)>,
    t1: Seq<u8>,
    t2: Seq<u8>,
)
    requires
        l1.len() == l2.len(),
        pairs_bytes(l1).len() <= u64::MAX,
        pairs_bytes(l2).len() <= u64::MAX,
        pairs_bytes(l1) + t1 == pairs_bytes(l2) + t2,
    ensures
        l1 == l2,
        t1 == t2,
    decreases l1.len(),
{
    if l1.len() == 0 {
        assert(pairs_bytes(l1) + t1 =~= t1);
        assert(pairs_bytes(l2) + t2 =~= t2);
        assert(l1 =~= l2);
    } else {
        let r1 = l1.drop_first();
        let r2 = l2.drop_first();
        let u1 = string_bytes(l1.first().1) + (pairs_bytes(r1) + t1);
        let u2 = string_bytes(l2.first().1) + (pairs_bytes(r2) + t2);
        assert(pairs_bytes(l1) + t1 =~= string_bytes(l1.first().0) + u1);
        assert(pairs_bytes(l2) + t2 =~= string_bytes(l2.first().0) + u2);
        lemma_string_bytes(l1.first().0, l2.first().0, u1, u2);
        lemma_string_bytes(
            l1.first().1,
            l2.first().1,
            pairs_bytes(r1) + t1,
            pairs_bytes(r2) + t2,
        );
        lemma_pairs_bytes(r1, r2, t1, t2);
        assert(l1 =~= seq![l1.first()] + r1);
        assert(l2 =~= seq![l2.first()] + r2);
    }
}

proof fn lemma_strings_bytes_len(list: Seq<Seq<char>>)
    ensures
        strings_bytes(list).len() >= 8 * list.len(),
    decreases list.len(),
{
    if list.len() > 0 {
        lemma_length_bytes_len(encode_utf8(list.first()).len());
        lemma_strings_bytes_len(list.drop_first());
    }
}

proof fn lemma_pairs_bytes_len(list: Seq<(Seq<char>, Seq<char>)>)
    ensures
        pairs_bytes(list).len() >= 16 * list.len(),
    decreases list.len(),
{
    if list.len() > 0 {
        lemma_length_bytes_len(encode_utf8(list.first().0).len());
        lemma_length_bytes_len(encode_utf8(list.first().1).len());
        lemma_pairs_bytes_len(list.drop_first());
    }
}

/// The bytes of any metadata hold at least the version and two lengths.
pub proof fn lemma_metadata_bytes_len(
    version: i32,
    empty_files: Seq<Seq<char>>,
    files: Seq<(Seq<char>, Seq<char>)>,
)
    ensures
        metadata_bytes(version, empty_files, files).len() >= 20,
{
    lemma_auto_spec_u32_to_from_le_bytes();
    lemma_length_bytes_len(empty_files.len());
    lemma_length_bytes_len(files.len());
}

/// No bytes begin with the encodings of two different metadata: what was
/// encoded can be told from its bytes, whatever follows them.
pub proof fn lemma_metadata_bytes_unique(
    bytes: Seq<u8>,
    v1: i32,
    e1: Seq<Seq<char>>,
    f1: Seq<(Seq<char>, Seq<char>)>,
    v2: i32,
    e2: Seq<Seq<char>>,
    f2: Seq<(Seq<char>, Seq<char>)>,
)
    requires
        bytes.len() <= u64::MAX,
        metadata_bytes(v1, e1, f1).is_prefix_of(bytes),
        metadata_bytes(v2, e2, f2).is_prefix_of(bytes),
    ensures
        v1 == v2,
        e1 == e2,
        f1 == f2,
{
    lemma_auto_spec_u32_to_from_le_bytes();
    lemma_length_bytes_len(e1.len());
    lemma_length_bytes_len(e2.len());
    lemma_length_bytes_len(f1.len());
    lemma_length_bytes_len(f2.len());
    lemma_strings_bytes_len(e1);
    lemma_strings_bytes_len(e2);
    lemma_pairs_bytes_len(f1);
    lemma_pairs_bytes_len(f2);
    let m1 = metadata_bytes(v1, e1, f1);
    let m2 = metadata_bytes(v2, e2, f2);
    let t1 = bytes.skip(m1.len() as int);
    let t2 = bytes.skip(m2.len() as int);
    let h1 = spec_u32_to_le_bytes(i32_bits(v1));
    let h2 = spec_u32_to_le_bytes(i32_bits(v2));
    let c1 = length_bytes(f1.len()) + (pairs_bytes(f1) + t1);
    let c2 = length_bytes(f2.len()) + (pairs_bytes(f2) + t2);
    let b1 = strings_bytes(e1) + c1;
    let b2 = strings_bytes(e2) + c2;
    let a1 = length_bytes(e1.len()) + b1;
    let a2 = length_bytes(e2.len()) + b2;
    assert(bytes =~= m1 + t1);
    assert(bytes =~= m2 + t2);
    assert(m1 + t1 =~= h1 + a1);
    assert(m2 + t2 =~= h2 + a2);
    assert(bytes.take(4) =~= h1);
    assert(bytes.take(4) =~= h2);
    assert(spec_u32_from_le_bytes(h1) == i32_bits(v1));
    assert(spec_u32_from_le_bytes(h2) == i32_bits(v2));
    assert(bytes.skip(4) =~= a1);
    assert(bytes.skip(4) =~= a2);
    lemma_length_bytes(e1.len(), e2.len(), b1, b2);
    lemma_strings_bytes(e1, e2, c1, c2);
    lemma_length_bytes(f1.len(), f2.len(), pairs_bytes(f1) + t1, pairs_bytes(f2) + t2);
    lemma_pairs_bytes(f1, f2, t1, t2);
}

} // verus!
