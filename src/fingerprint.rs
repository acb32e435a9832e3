//! The directory fingerprint that keys the archive cache: a BLAKE3 digest over
//! every eligible file's name and modification time, in byte order of names.

use vstd::bytes::{
    lemma_auto_spec_u64_to_from_le_bytes, spec_u64_from_le_bytes, spec_u64_to_le_bytes,
    u64_to_le_bytes,
};
use vstd::prelude::*;
use vstd::relations::{sorted_by, total_ordering};
use vstd::string::StrSliceExecFns;
use vstd::utf8::encode_utf8;

verus! {

broadcast use vstd::seq_lib::group_to_multiset_ensures;

/// An eligible file as the fingerprint sees it: its name and its modification
/// time in whole seconds since the Unix epoch.
pub struct FileStamp {
    pub name: String,
    pub mtime: u64,
}

impl View for FileStamp {
    type V = (Seq<u8>, u64);

    /// The UTF-8 bytes of the name, and the modification time.
    open spec fn view(&self) -> (Seq<u8>, u64) {
        (encode_utf8(self.name@), self.mtime)
    }
}

/// The views of a sequence of stamps.
pub open spec fn views_of(v: Seq<FileStamp>) -> Seq<(Seq<u8>, u64)> {
    v.map_values(|s: FileStamp| s@)
}

/// Byte-wise lexicographic order; a proper prefix comes first.
pub open spec fn bytes_le(a: Seq<u8>, b: Seq<u8>) -> bool
    decreases a.len(),
{
    if a.len() == 0 {
        true
    } else if b.len() == 0 {
        false
    } else if a[0] != b[0] {
        a[0] < b[0]
    } else {
        bytes_le(a.drop_first(), b.drop_first())
    }
}

/// Stamps in order of name bytes; the time only orders stamps of one name.
pub open spec fn stamp_le(x: (Seq<u8>, u64), y: (Seq<u8>, u64)) -> bool {
    if x.0 == y.0 {
        x.1 <= y.1
    } else {
        bytes_le(x.0, y.0)
    }
}

/// `stamp_le` as a relation.
pub open spec fn stamp_order() -> spec_fn((Seq<u8>, u64), (Seq<u8>, u64)) -> bool {
    |x: (Seq<u8>, u64), y: (Seq<u8>, u64)| stamp_le(x, y)
}

/// The stamps sorted by name.
pub open spec fn in_name_order(stamps: Seq<(Seq<u8>, u64)>) -> Seq<(Seq<u8>, u64)> {
    stamps.sort_by(stamp_order())
}

/// Each stamp's name bytes followed by its time as eight little-endian bytes,
/// with no separator.
pub open spec fn stamp_stream(s: Seq<(Seq<u8>, u64)>) -> Seq<u8>
    decreases s.len(),
{
    if s.len() == 0 {
        seq![]
    } else {
        stamp_stream(s.drop_last()) + s.last().0 + spec_u64_to_le_bytes(s.last().1)
    }
}

/// What the fingerprint hashes.
pub open spec fn fingerprint_input(stamps: Seq<(Seq<u8>, u64)>) -> Seq<u8> {
    stamp_stream(in_name_order(stamps))
}

/// A lowercase hexadecimal digit.
pub open spec fn is_lower_hex(c: char) -> bool {
    ('0' <= c <= '9') || ('a' <= c <= 'f')
}

/// The lowercase hexadecimal BLAKE3 digest of `data`.
pub uninterp spec fn blake3_hex(data: Seq<u8>) -> Seq<char>;

/// Relies on `blake3::hash` and `Hash::to_hex`: the digest of the whole input
/// (the same as feeding it to a `Hasher` in pieces), as 64 lowercase hex digits.
#[verifier::external_body]
fn hash_hex(data: &[u8]) -> (r: String)
    ensures
        r@ == blake3_hex(data@),
        r@.len() == 64,
        forall|i: int| 0 <= i < r@.len() ==> is_lower_hex(#[trigger] r@[i]),
{
    blake3::hash(data).to_hex().to_string()
}

proof fn lemma_bytes_le_reflexive(a: Seq<u8>)
    ensures
        bytes_le(a, a),
    decreases a.len(),
{
    if a.len() > 0 {
        lemma_bytes_le_reflexive(a.drop_first());
    }
}

proof fn lemma_bytes_le_total(a: Seq<u8>, b: Seq<u8>)
    ensures
        bytes_le(a, b) || bytes_le(b, a),
    decreases a.len(),
{
    if a.len() > 0 && b.len() > 0 && a[0] == b[0] {
        lemma_bytes_le_total(a.drop_first(), b.drop_first());
    }
}

proof fn lemma_bytes_le_antisymmetric(a: Seq<u8>, b: Seq<u8>)
    requires
        bytes_le(a, b),
        bytes_le(b, a),
    ensures
        a == b,
    decreases a.len(),
{
    if a.len() == 0 {
        assert(a =~= b);
    } else {
        assert(b.len() > 0);
        assert(a[0] == b[0]);
        lemma_bytes_le_antisymmetric(a.drop_first(), b.drop_first());
        assert(a.drop_first().len() == b.drop_first().len());
        assert(a.len() == b.len());
        assert(a =~= b) by {
            assert forall|i: int| 0 <= i < a.len() implies a[i] == b[i] by {
                if i > 0 {
                    assert(a[i] == a.drop_first()[i - 1]);
                    assert(b[i] == b.drop_first()[i - 1]);
                }
            }
        }
    }
}

proof fn lemma_bytes_le_transitive(a: Seq<u8>, b: Seq<u8>, c: Seq<u8>)
    requires
        bytes_le(a, b),
        bytes_le(b, c),
    ensures
        bytes_le(a, c),
    decreases a.len(),
{
    if a.len() > 0 && b.len() > 0 && c.len() > 0 && a[0] == b[0] && b[0] == c[0] {
        lemma_bytes_le_transitive(a.drop_first(), b.drop_first(), c.drop_first());
    }
}

/// Ordering stamps by name, then time, is a total order.
pub proof fn lemma_stamp_order_total()
    ensures
        total_ordering(stamp_order()),
{
    assert forall|x: (Seq<u8>, u64)| #[trigger] stamp_order()(x, x) by {
        lemma_bytes_le_reflexive(x.0);
    }
    assert forall|x: (Seq<u8>, u64), y: (Seq<u8>, u64)|
        #[trigger] stamp_order()(x, y) && #[trigger] stamp_order()(y, x) implies x == y by {
        if x.0 != y.0 {
            lemma_bytes_le_antisymmetric(x.0, y.0);
        }
    }
    assert forall|x: (Seq<u8>, u64), y: (Seq<u8>, u64), z: (Seq<u8>, u64)|
        #[trigger] stamp_order()(x, y) && #[trigger] stamp_order()(y, z) implies stamp_order()(
        x,
        z,
    ) by {
        if x.0 != y.0 && y.0 != z.0 {
            lemma_bytes_le_transitive(x.0, y.0, z.0);
            if x.0 == z.0 {
                lemma_bytes_le_antisymmetric(x.0, y.0);
            }
        }
    }
    assert forall|x: (Seq<u8>, u64), y: (Seq<u8>, u64)|
        #[trigger] stamp_order()(x, y) || #[trigger] stamp_order()(y, x) by {
        lemma_bytes_le_total(x.0, y.0);
    }
}

/// Two sorted arrangements of the same stamps are the same sequence.
proof fn lemma_sorted_arrangement_unique(a: Seq<(Seq<u8>, u64)>, b: Seq<(Seq<u8>, u64)>)
    requires
        sorted_by(a, stamp_order()),
        sorted_by(b, stamp_order()),
        a.to_multiset() == b.to_multiset(),
    ensures
        a == b,
    decreases a.len(),
{
    lemma_stamp_order_total();
    if a.len() == 0 {
        assert(a =~= b);
    } else {
        assert(a.len() == a.to_multiset().len());
        assert(b.len() == b.to_multiset().len());
        assert(b.contains(b[0]));
        assert(a.contains(a[0]));
        assert(b.to_multiset().count(b[0]) > 0);
        assert(a.to_multiset().count(a[0]) > 0);
        assert(a.contains(b[0]));
        assert(b.contains(a[0]));
        let i = choose|i: int| 0 <= i < a.len() && a[i] == b[0];
        let j = choose|j: int| 0 <= j < b.len() && b[j] == a[0];
        if i > 0 {
            assert(stamp_order()(a[0], a[i]));
        }
        if j > 0 {
            assert(stamp_order()(b[0], b[j]));
        }
        assert(stamp_order()(a[0], b[0]));
        assert(stamp_order()(b[0], a[0]));
        let ta = a.remove(0);
        let tb = b.remove(0);
        assert(ta.to_multiset() == a.to_multiset().remove(a[0]));
        assert(tb.to_multiset() == b.to_multiset().remove(b[0]));
        assert(sorted_by(ta, stamp_order())) by {
            assert forall|p: int, q: int| 0 <= p < q < ta.len() implies #[trigger] stamp_order()(
                ta[p],
                ta[q],
            ) by {
                assert(ta[p] == a[p + 1] && ta[q] == a[q + 1]);
            }
        }
        assert(sorted_by(tb, stamp_order())) by {
            assert forall|p: int, q: int| 0 <= p < q < tb.len() implies #[trigger] stamp_order()(
                tb[p],
                tb[q],
            ) by {
                assert(tb[p] == b[p + 1] && tb[q] == b[q + 1]);
            }
        }
        lemma_sorted_arrangement_unique(ta, tb);
        assert(a =~= b) by {
            assert forall|k: int| 0 <= k < a.len() implies a[k] == b[k] by {
                if k > 0 {
                    assert(a[k] == ta[k - 1]);
                    assert(b[k] == tb[k - 1]);
                }
            }
        }
    }
}

/// A sorted arrangement of `stamps` is the one `in_name_order` gives.
proof fn lemma_sorted_is_in_name_order(sorted: Seq<(Seq<u8>, u64)>, stamps: Seq<(Seq<u8>, u64)>)
    requires
        sorted_by(sorted, stamp_order()),
        sorted.to_multiset() == stamps.to_multiset(),
    ensures
        sorted == in_name_order(stamps),
{
    lemma_stamp_order_total();
    stamps.lemma_sort_by_ensures(stamp_order());
    lemma_sorted_arrangement_unique(sorted, in_name_order(stamps));
}

/// Sorting by name forgets the order it started from: rearrangements of the
/// same stamps sort to the same sequence.
pub proof fn lemma_name_order_independent(a: Seq<(Seq<u8>, u64)>, b: Seq<(Seq<u8>, u64)>)
    requires
        a.to_multiset() == b.to_multiset(),
    ensures
        in_name_order(a) == in_name_order(b),
{
    lemma_stamp_order_total();
    a.lemma_sort_by_ensures(stamp_order());
    lemma_sorted_is_in_name_order(in_name_order(a), b);
}

/// The fingerprint does not depend on the order in which the directory was
/// enumerated: any rearrangement of the same stamps hashes the same input.
pub proof fn lemma_fingerprint_order_independent(
    a: Seq<(Seq<u8>, u64)>,
    b: Seq<(Seq<u8>, u64)>,
)
    requires
        a.to_multiset() == b.to_multiset(),
    ensures
        fingerprint_input(a) == fingerprint_input(b),
        blake3_hex(fingerprint_input(a)) == blake3_hex(fingerprint_input(b)),
{
    lemma_name_order_independent(a, b);
}

/// The stream of a concatenation is the concatenation of the streams.
proof fn lemma_stream_concat(u: Seq<(Seq<u8>, u64)>, w: Seq<(Seq<u8>, u64)>)
    ensures
        stamp_stream(u + w) == stamp_stream(u) + stamp_stream(w),
    decreases w.len(),
{
    if w.len() == 0 {
        assert(u + w =~= u);
        assert(stamp_stream(u) + stamp_stream(w) =~= stamp_stream(u));
    } else {
        assert((u + w).drop_last() =~= u + w.drop_last());
        assert((u + w).last() == w.last());
        lemma_stream_concat(u, w.drop_last());
        assert(stamp_stream(u + w) =~= stamp_stream(u) + stamp_stream(w));
    }
}

/// Replacing one element changes the multiset by that element alone.
proof fn lemma_update_multiset(s: Seq<(Seq<u8>, u64)>, i: int, v: (Seq<u8>, u64))
    requires
        0 <= i < s.len(),
    ensures
        s.update(i, v).to_multiset() == s.to_multiset().remove(s[i]).insert(v),
{
    let t = s.update(i, v);
    assert(t.remove(i) =~= s.remove(i));
    assert(t.remove(i).to_multiset() == t.to_multiset().remove(v));
    assert(s.remove(i).to_multiset() == s.to_multiset().remove(s[i]));
    assert(t.contains(v)) by {
        assert(t[i] == v);
    }
    assert(t.to_multiset().count(v) > 0);
    assert(t.to_multiset() =~= t.to_multiset().remove(v).insert(v));
}

/// The last position at which `x` stands in `s`, at or after `from`.
proof fn lemma_last_position(s: Seq<(Seq<u8>, u64)>, x: (Seq<u8>, u64), from: int) -> (p: int)
    requires
        0 <= from < s.len(),
        s[from] == x,
    ensures
        from <= p < s.len(),
        s[p] == x,
        forall|q: int| p < q < s.len() ==> s[q] != x,
    decreases s.len() - from,
{
    if exists|q: int| from < q < s.len() && s[q] == x {
        let q = choose|q: int| from < q < s.len() && s[q] == x;
        lemma_last_position(s, x, q)
    } else {
        from
    }
}

/// Every file's time counts: moving one file's time a second later changes
/// what the fingerprint hashes. That the digest then changes too rests on the
/// collision resistance of BLAKE3, which no proof here can reach.
pub proof fn lemma_fingerprint_input_sees_each_mtime(a: Seq<(Seq<u8>, u64)>, k: int)
    requires
        0 <= k < a.len(),
        a[k].1 < u64::MAX,
    ensures
        fingerprint_input(a) != fingerprint_input(a.update(k, (a[k].0, (a[k].1 + 1) as u64))),
{
    lemma_stamp_order_total();
    let x = a[k];
    let x2 = (x.0, (x.1 + 1) as u64);
    let a2 = a.update(k, x2);
    let s = in_name_order(a);
    a.lemma_sort_by_ensures(stamp_order());
    assert(a.contains(x));
    assert(a.to_multiset().count(x) > 0);
    assert(s.contains(x));
    let p0 = choose|p: int| 0 <= p < s.len() && s[p] == x;
    let p = lemma_last_position(s, x, p0);
    let s2 = s.update(p, x2);
    assert(sorted_by(s2, stamp_order())) by {
        assert forall|i: int, j: int| 0 <= i < j < s2.len() implies #[trigger] stamp_order()(
            s2[i],
            s2[j],
        ) by {
            assert(stamp_order()(s[i], s[j]));
            if j == p {
                assert(stamp_le(s[i], x));
            } else if i == p {
                assert(stamp_le(x, s[j]));
                assert(s[j] != x);
            }
        }
    }
    lemma_update_multiset(s, p, x2);
    lemma_update_multiset(a, k, x2);
    lemma_sorted_is_in_name_order(s2, a2);
    let pre = s.take(p);
    let post = s.skip(p + 1);
    assert(s =~= pre + seq![x] + post);
    assert(s2 =~= pre + seq![x2] + post);
    lemma_stream_concat(pre + seq![x], post);
    lemma_stream_concat(pre, seq![x]);
    lemma_stream_concat(pre + seq![x2], post);
    lemma_stream_concat(pre, seq![x2]);
    assert(seq![x].drop_last() =~= Seq::<(Seq<u8>, u64)>::empty());
    assert(seq![x2].drop_last() =~= Seq::<(Seq<u8>, u64)>::empty());
    assert(stamp_stream(Seq::<(Seq<u8>, u64)>::empty()) =~= Seq::<u8>::empty());
    assert(seq![x].last() == x);
    assert(seq![x2].last() == x2);
    assert(stamp_stream(seq![x]) =~= x.0 + spec_u64_to_le_bytes(x.1));
    assert(stamp_stream(seq![x2]) =~= x.0 + spec_u64_to_le_bytes(x2.1));
    lemma_auto_spec_u64_to_from_le_bytes();
    let off: int = (stamp_stream(pre).len() + x.0.len()) as int;
    let f1 = stamp_stream(s);
    let f2 = stamp_stream(s2);
    assert(f1.subrange(off, off + 8) =~= spec_u64_to_le_bytes(x.1));
    assert(f2.subrange(off, off + 8) =~= spec_u64_to_le_bytes(x2.1));
    assert(spec_u64_from_le_bytes(spec_u64_to_le_bytes(x.1)) != spec_u64_from_le_bytes(
        spec_u64_to_le_bytes(x2.1),
    ));
}

/// Whether `a` comes no later than `b` in byte-wise order.
fn bytes_le_exec(a: &[u8], b: &[u8]) -> (r: bool)
    ensures
        r == bytes_le(a@, b@),
{
    let mut i: usize = 0;
    assert(a@.skip(0) =~= a@);
    assert(b@.skip(0) =~= b@);
    while i < a.len()
        invariant
            i <= a@.len(),
            i <= b@.len(),
            bytes_le(a@, b@) == bytes_le(a@.skip(i as int), b@.skip(i as int)),
        decreases a@.len() - i,
    {
        if i >= b.len() {
            return false;
        }
        if a[i] != b[i] {
            return a[i] < b[i];
        }
        assert(a@.skip(i as int).drop_first() =~= a@.skip(i + 1));
        assert(b@.skip(i as int).drop_first() =~= b@.skip(i + 1));
        i = i + 1;
    }
    true
}

/// Whether stamp `x` sorts no later than stamp `y`.
fn stamp_le_exec(x: &FileStamp, y: &FileStamp) -> (r: bool)
    ensures
        r == stamp_le(x@, y@),
{
    let xb = x.name.as_str().as_bytes();
    let yb = y.name.as_str().as_bytes();
    let xy = bytes_le_exec(xb, yb);
    let yx = bytes_le_exec(yb, xb);
    proof {
        if xy && yx {
            lemma_bytes_le_antisymmetric(xb@, yb@);
        }
        if x@.0 == y@.0 {
            lemma_bytes_le_reflexive(x@.0);
        }
    }
    if xy && yx {
        x.mtime <= y.mtime
    } else {
        xy
    }
}

/// A copy of a stamp with the same view.
fn copy_stamp(s: &FileStamp) -> (r: FileStamp)
    ensures
        r@ == s@,
{
    FileStamp { name: s.name.clone(), mtime: s.mtime }
}

/// The stamps sorted by name, as `in_name_order` gives them.
pub fn sort_by_name(stamps: &Vec<FileStamp>) -> (r: Vec<FileStamp>)
    ensures
        views_of(r@) == in_name_order(views_of(stamps@)),
{
    let mut out: Vec<FileStamp> = Vec::new();
    let mut i: usize = 0;
    proof {
        lemma_stamp_order_total();
        assert(views_of(stamps@).subrange(0, 0) =~= views_of(out@));
    }
    while i < stamps.len()
        invariant
            i <= stamps@.len(),
            total_ordering(stamp_order()),
            sorted_by(views_of(out@), stamp_order()),
            views_of(out@).to_multiset() == views_of(stamps@).subrange(0, i as int).to_multiset(),
        decreases stamps@.len() - i,
    {
        let x = copy_stamp(&stamps[i]);
        let mut pos: usize = 0;
        while pos < out.len() && stamp_le_exec(&out[pos], &x)
            invariant
                pos <= out@.len(),
                forall|k: int| 0 <= k < pos ==> stamp_le(#[trigger] out@[k]@, x@),
            decreases out@.len() - pos,
        {
            pos = pos + 1;
        }
        let ghost old_v = views_of(out@);
        proof {
            if pos < out@.len() {
                assert(!stamp_order()(old_v[pos as int], x@));
                assert(stamp_order()(x@, old_v[pos as int]));
            }
        }
        out.insert(pos, x);
        let ghost new_v = views_of(out@);
        proof {
            assert(new_v =~= old_v.insert(pos as int, x@));
            assert(sorted_by(new_v, stamp_order())) by {
                assert forall|p: int, q: int| 0 <= p < q < new_v.len() implies #[trigger]
                    stamp_order()(new_v[p], new_v[q]) by {
                    if q < pos {
                        assert(new_v[p] == old_v[p] && new_v[q] == old_v[q]);
                    } else if q == pos {
                        assert(new_v[p] == old_v[p]);
                        assert(stamp_le(out@[p]@, x@));
                    } else if p == pos {
                        assert(new_v[q] == old_v[q - 1]);
                        if q - 1 > pos {
                            assert(stamp_order()(old_v[pos as int], old_v[q - 1]));
                        }
                    } else if p < pos {
                        assert(new_v[p] == old_v[p] && new_v[q] == old_v[q - 1]);
                        if p < q - 1 {
                            assert(stamp_order()(old_v[p], old_v[q - 1]));
                        }
                        assert(stamp_order()(old_v[p], old_v[q - 1])) by {
                            assert(stamp_le(old_v[p], x@));
                            assert(stamp_order()(x@, old_v[pos as int]));
                            if q - 1 > pos {
                                assert(stamp_order()(old_v[pos as int], old_v[q - 1]));
                            }
                        }
                    } else {
                        assert(new_v[p] == old_v[p - 1] && new_v[q] == old_v[q - 1]);
                    }
                }
            }
            let pre = old_v.subrange(0, pos as int);
            let post = old_v.subrange(pos as int, old_v.len() as int);
            assert(old_v =~= pre + post);
            assert(new_v =~= pre.push(x@) + post);
            vstd::seq_lib::lemma_multiset_commutative(pre, post);
            vstd::seq_lib::lemma_multiset_commutative(pre.push(x@), post);
            assert(views_of(stamps@).subrange(0, i + 1) =~= views_of(stamps@).subrange(
                0,
                i as int,
            ).push(x@));
            assert(new_v.to_multiset() =~= old_v.to_multiset().insert(x@));
        }
        i = i + 1;
    }
    proof {
        assert(views_of(stamps@).subrange(0, stamps@.len() as int) =~= views_of(stamps@));
        lemma_sorted_is_in_name_order(views_of(out@), views_of(stamps@));
    }
    out
}

/// The bytes the fingerprint hashes: for each stamp in name order, its name's
/// UTF-8 bytes and then its time as eight little-endian bytes.
pub fn fingerprint_input_bytes(stamps: &Vec<FileStamp>) -> (r: Vec<u8>)
    ensures
        r@ == fingerprint_input(views_of(stamps@)),
{
    let sorted = sort_by_name(stamps);
    let ghost v = views_of(sorted@);
    let mut out: Vec<u8> = Vec::new();
    let mut i: usize = 0;
    proof {
        assert(v.take(0).len() == 0);
    }
    while i < sorted.len()
        invariant
            i <= sorted@.len(),
            v == views_of(sorted@),
            out@ == stamp_stream(v.take(i as int)),
        decreases sorted@.len() - i,
    {
        let mut name = sorted[i].name.as_str().as_bytes_vec();
        let mut time = u64_to_le_bytes(sorted[i].mtime);
        out.append(&mut name);
        out.append(&mut time);
        proof {
            assert(v.take(i + 1).drop_last() =~= v.take(i as int));
            assert(v.take(i + 1).last() == sorted@[i as int]@);
        }
        i = i + 1;
    }
    proof {
        assert(v.take(sorted@.len() as int) =~= v);
    }
    out
}

/// The fingerprint of a directory, given the stamps of its eligible files in
/// any order: the lowercase hex BLAKE3 digest of `fingerprint_input`.
pub fn calculate_directory_hash(stamps: &Vec<FileStamp>) -> (r: String)
    ensures
        r@ == blake3_hex(fingerprint_input(views_of(stamps@))),
        r@.len() == 64,
        forall|i: int| 0 <= i < r@.len() ==> is_lower_hex(#[trigger] r@[i]),
{
    let input = fingerprint_input_bytes(stamps);
    hash_hex(input.as_slice())
}

} // verus!
