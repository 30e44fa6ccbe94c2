use vstd::prelude::*;

use crate::curve::HilbertPoint;
use crate::geometry::{
    decode_geometry, encode_geometry, geometry_decoding, geometry_encoding, points_model,
    polygons_model, rings_model, Geometry, HilbertError, HilbertGeometry, HilbertModel,
};

verus! {

/// `256^n`.
pub open spec fn pow256(n: nat) -> nat
    decreases n,
{
    if n == 0 {
        1
    } else {
        256 * pow256((n - 1) as nat)
    }
}

/// The `n` low bytes of `v`, least significant first.
pub open spec fn le_bytes(v: nat, n: nat) -> Seq<u8>
    decreases n,
{
    if n == 0 {
        Seq::empty()
    } else {
        seq![(v % 256) as u8] + le_bytes(v / 256, (n - 1) as nat)
    }
}

/// Value of bytes read least significant first.
pub open spec fn le_value(s: Seq<u8>) -> nat
    decreases s.len(),
{
    if s.len() == 0 {
        0
    } else {
        s[0] as nat + 256 * le_value(s.drop_first())
    }
}

/// Variable-length encoding of an unsigned integer in bincode's standard
/// configuration: one byte up to 250, else a marker byte (251, 252 or 253)
/// followed by the value in 2, 4 or 8 little-endian bytes.
pub open spec fn varint(v: u64) -> Seq<u8> {
    if v <= 250 {
        seq![v as u8]
    } else if v <= 0xffff {
        seq![251u8] + le_bytes(v as nat, 2)
    } else if v <= 0xffff_ffff {
        seq![252u8] + le_bytes(v as nat, 4)
    } else {
        seq![253u8] + le_bytes(v as nat, 8)
    }
}

/// The unsigned integer that bincode's standard configuration reads at the
/// start of `s`, with the number of bytes it takes; `None` where the bytes
/// end too early or the marker byte is not one of an unsigned 64-bit value.
pub open spec fn read_varint(s: Seq<u8>) -> Option<(u64, nat)> {
    if s.len() == 0 {
        None
    } else if s[0] <= 250 {
        Some((s[0] as u64, 1))
    } else if s[0] == 251 {
        if s.len() >= 3 {
            Some((le_value(s.subrange(1, 3)) as u64, 3))
        } else {
            None
        }
    } else if s[0] == 252 {
        if s.len() >= 5 {
            Some((le_value(s.subrange(1, 5)) as u64, 5))
        } else {
            None
        }
    } else if s[0] == 253 {
        if s.len() >= 9 {
            Some((le_value(s.subrange(1, 9)) as u64, 9))
        } else {
            None
        }
    } else {
        None
    }
}

/// The encodings of the items of `xs`, one after another.
pub open spec fn concat_wire<A>(xs: Seq<A>, enc: spec_fn(A) -> Seq<u8>) -> Seq<u8>
    decreases xs.len(),
{
    if xs.len() == 0 {
        Seq::empty()
    } else {
        concat_wire(xs.drop_last(), enc) + enc(xs.last())
    }
}

/// A list as bincode writes it: its length, then each item.
pub open spec fn list_wire<A>(xs: Seq<A>, enc: spec_fn(A) -> Seq<u8>) -> Seq<u8> {
    varint(xs.len() as u64) + concat_wire(xs, enc)
}

/// Reads `n` items one after another at the start of `s`, each with `item`;
/// gives the items and the number of bytes they take.
pub open spec fn parse_many<A>(
    s: Seq<u8>,
    n: nat,
    item: spec_fn(Seq<u8>) -> Option<(A, nat)>,
) -> Option<(Seq<A>, nat)>
    decreases n,
{
    if n == 0 {
        Some((Seq::empty(), 0))
    } else {
        match parse_many(s, (n - 1) as nat, item) {
            Some((xs, k)) => match item(s.skip(k as int)) {
                Some((x, m)) => Some((xs.push(x), k + m)),
                None => None,
            },
            None => None,
        }
    }
}

/// Reads a list at the start of `s`: a length, then that many items. A
/// length above the number of bytes left is refused, since no item takes
/// less than one byte.
pub open spec fn parse_list<A>(s: Seq<u8>, item: spec_fn(Seq<u8>) -> Option<(A, nat)>) -> Option<
    (Seq<A>, nat),
> {
    match read_varint(s) {
        Some((n, k)) => if n > s.len() - k {
            None
        } else {
            match parse_many(s.skip(k as int), n as nat, item) {
                Some((xs, m)) => Some((xs, k + m)),
                None => None,
            }
        },
        None => None,
    }
}

/// Bytes of a list of curve positions.
pub open spec fn ring_wire(r: Seq<u64>) -> Seq<u8> {
    list_wire(r, |v: u64| varint(v))
}

/// Bytes of a list of rings.
pub open spec fn rings_wire(rs: Seq<Seq<u64>>) -> Seq<u8> {
    list_wire(rs, |r: Seq<u64>| ring_wire(r))
}

/// Bytes of a list of polygons, each a list of rings.
pub open spec fn polygons_wire(ps: Seq<Seq<Seq<u64>>>) -> Seq<u8> {
    list_wire(ps, |p: Seq<Seq<u64>>| rings_wire(p))
}

/// Reads a list of curve positions.
pub open spec fn parse_ring(s: Seq<u8>) -> Option<(Seq<u64>, nat)> {
    parse_list(s, |t: Seq<u8>| read_varint(t))
}

/// Reads a list of rings.
pub open spec fn parse_rings(s: Seq<u8>) -> Option<(Seq<Seq<u64>>, nat)> {
    parse_list(s, |t: Seq<u8>| parse_ring(t))
}

/// Reads a list of polygons.
pub open spec fn parse_polygons(s: Seq<u8>) -> Option<(Seq<Seq<Seq<u64>>>, nat)> {
    parse_list(s, |t: Seq<u8>| parse_rings(t))
}

/// Bytes of a Hilbert geometry: the variant's index, then its payload.
pub open spec fn geometry_wire(h: HilbertModel) -> Seq<u8> {
    match h {
        HilbertModel::Point(p) => varint(0) + varint(p),
        HilbertModel::LineString(s) => varint(1) + ring_wire(s),
        HilbertModel::Polygon(rs) => varint(2) + rings_wire(rs),
        HilbertModel::MultiPoint(s) => varint(3) + ring_wire(s),
        HilbertModel::MultiLineString(rs) => varint(4) + rings_wire(rs),
        HilbertModel::MultiPolygon(ps) => varint(5) + polygons_wire(ps),
    }
}

/// Hilbert geometry read at the start of `s`, with the number of bytes it
/// takes; `None` for truncated or malformed bytes or an unknown variant.
/// The variant's index is a 32-bit integer, so its 8-byte form (marker 253)
/// is refused.
pub open spec fn parse_geometry(s: Seq<u8>) -> Option<(HilbertModel, nat)> {
    match read_varint(s) {
        Some((tag, k)) => {
            let t = s.skip(k as int);
            if k == 9 {
                None
            } else if tag == 0 {
                match read_varint(t) {
                    Some((p, m)) => Some((HilbertModel::Point(p), k + m)),
                    None => None,
                }
            } else if tag == 1 || tag == 3 {
                match parse_ring(t) {
                    Some((r, m)) => Some(
                        (
                            if tag == 1 {
                                HilbertModel::LineString(r)
                            } else {
                                HilbertModel::MultiPoint(r)
                            },
                            k + m,
                        ),
                    ),
                    None => None,
                }
            } else if tag == 2 || tag == 4 {
                match parse_rings(t) {
                    Some((rs, m)) => Some(
                        (
                            if tag == 2 {
                                HilbertModel::Polygon(rs)
                            } else {
                                HilbertModel::MultiLineString(rs)
                            },
                            k + m,
                        ),
                    ),
                    None => None,
                }
            } else if tag == 5 {
                match parse_polygons(t) {
                    Some((ps, m)) => Some((HilbertModel::MultiPolygon(ps), k + m)),
                    None => None,
                }
            } else {
                None
            }
        },
        None => None,
    }
}

/// Every list in a list of rings has a length that fits in 64 bits.
pub open spec fn rings_fit(rs: Seq<Seq<u64>>) -> bool {
    rs.len() <= u64::MAX && forall|i: int| 0 <= i < rs.len() ==> #[trigger] rs[i].len() <= u64::MAX
}

/// Every list in a Hilbert geometry has a length that fits in 64 bits.
pub open spec fn lengths_fit(h: HilbertModel) -> bool {
    match h {
        HilbertModel::Point(_) => true,
        HilbertModel::LineString(s) => s.len() <= u64::MAX,
        HilbertModel::Polygon(rs) => rings_fit(rs),
        HilbertModel::MultiPoint(s) => s.len() <= u64::MAX,
        HilbertModel::MultiLineString(rs) => rings_fit(rs),
        HilbertModel::MultiPolygon(ps) => ps.len() <= u64::MAX && forall|i: int|
            0 <= i < ps.len() ==> #[trigger] rings_fit(ps[i]),
    }
}

proof fn lemma_le_round_trip(v: nat, n: nat)
    requires
        v < pow256(n),
    ensures
        le_bytes(v, n).len() == n,
        le_value(le_bytes(v, n)) == v,
    decreases n,
{
    if n > 0 {
        let p = pow256((n - 1) as nat);
        assert(v / 256 < p) by (nonlinear_arith)
            requires
                v < 256 * p,
        ;
        lemma_le_round_trip(v / 256, (n - 1) as nat);
        let b = le_bytes(v, n);
        assert(b.drop_first() =~= le_bytes(v / 256, (n - 1) as nat));
    }
}

/// Reading back the encoding of an unsigned integer gives that integer and
/// the length of its encoding, whatever follows it.
pub proof fn varint_round_trip(v: u64, rest: Seq<u8>)
    ensures
        varint(v).len() >= 1,
        read_varint(varint(v) + rest) == Some((v, varint(v).len())),
{
    reveal_with_fuel(pow256, 9);
    let s = varint(v) + rest;
    if v <= 250 {
    } else if v <= 0xffff {
        lemma_le_round_trip(v as nat, 2);
        assert(s.subrange(1, 3) =~= le_bytes(v as nat, 2));
    } else if v <= 0xffff_ffff {
        lemma_le_round_trip(v as nat, 4);
        assert(s.subrange(1, 5) =~= le_bytes(v as nat, 4));
    } else {
        lemma_le_round_trip(v as nat, 8);
        assert(s.subrange(1, 9) =~= le_bytes(v as nat, 8));
    }
}

proof fn lemma_concat_len<A>(xs: Seq<A>, enc: spec_fn(A) -> Seq<u8>)
    requires
        forall|x: A| #[trigger] enc(x).len() >= 1,
    ensures
        concat_wire(xs, enc).len() >= xs.len(),
    decreases xs.len(),
{
    if xs.len() > 0 {
        lemma_concat_len(xs.drop_last(), enc);
        assert(enc(xs.last()).len() >= 1);
    }
}

/// Items written one after another read back, provided that each item
/// reads back from its own bytes.
proof fn lemma_parse_many<A>(
    xs: Seq<A>,
    rest: Seq<u8>,
    enc: spec_fn(A) -> Seq<u8>,
    item: spec_fn(Seq<u8>) -> Option<(A, nat)>,
    ok: spec_fn(A) -> bool,
)
    requires
        forall|i: int| 0 <= i < xs.len() ==> #[trigger] ok(xs[i]),
        forall|x: A, r: Seq<u8>| ok(x) ==> #[trigger] item(enc(x) + r) == Some((x, enc(x).len())),
    ensures
        parse_many(concat_wire(xs, enc) + rest, xs.len(), item) == Some(
            (xs, concat_wire(xs, enc).len()),
        ),
    decreases xs.len(),
{
    if xs.len() > 0 {
        let init = xs.drop_last();
        let last = xs.last();
        let s = concat_wire(xs, enc) + rest;
        let tail = enc(last) + rest;
        assert(s =~= concat_wire(init, enc) + tail);
        assert forall|i: int| 0 <= i < init.len() implies #[trigger] ok(init[i]) by {
            assert(ok(xs[i]));
        }
        lemma_parse_many(init, tail, enc, item, ok);
        assert(s.skip(concat_wire(init, enc).len() as int) =~= tail);
        assert(ok(xs[xs.len() - 1]));
        assert(item(enc(last) + rest) == Some((last, enc(last).len())));
        assert(init.push(last) =~= xs);
    }
}

/// A list written with its length reads back.
proof fn lemma_parse_list<A>(
    xs: Seq<A>,
    rest: Seq<u8>,
    enc: spec_fn(A) -> Seq<u8>,
    item: spec_fn(Seq<u8>) -> Option<(A, nat)>,
    ok: spec_fn(A) -> bool,
)
    requires
        xs.len() <= u64::MAX,
        forall|x: A| #[trigger] enc(x).len() >= 1,
        forall|i: int| 0 <= i < xs.len() ==> #[trigger] ok(xs[i]),
        forall|x: A, r: Seq<u8>| ok(x) ==> #[trigger] item(enc(x) + r) == Some((x, enc(x).len())),
    ensures
        list_wire(xs, enc).len() >= 1,
        parse_list(list_wire(xs, enc) + rest, item) == Some((xs, list_wire(xs, enc).len())),
{
    let body = concat_wire(xs, enc);
    let s = list_wire(xs, enc) + rest;
    varint_round_trip(xs.len() as u64, body + rest);
    assert(s =~= varint(xs.len() as u64) + (body + rest));
    let k = varint(xs.len() as u64).len();
    lemma_concat_len(xs, enc);
    assert(s.skip(k as int) =~= body + rest);
    lemma_parse_many(xs, rest, enc, item, ok);
}

proof fn lemma_list_nonempty<A>(xs: Seq<A>, enc: spec_fn(A) -> Seq<u8>)
    ensures
        list_wire(xs, enc).len() >= 1,
{
    varint_round_trip(xs.len() as u64, Seq::empty());
}

proof fn lemma_ring(r: Seq<u64>, rest: Seq<u8>)
    requires
        r.len() <= u64::MAX,
    ensures
        parse_ring(ring_wire(r) + rest) == Some((r, ring_wire(r).len())),
{
    let enc = |v: u64| varint(v);
    let item = |t: Seq<u8>| read_varint(t);
    let ok = |v: u64| true;
    assert forall|v: u64| #[trigger] enc(v).len() >= 1 by {
        varint_round_trip(v, Seq::empty());
    }
    assert forall|v: u64, t: Seq<u8>| ok(v) implies #[trigger] item(enc(v) + t) == Some(
        (v, enc(v).len()),
    ) by {
        varint_round_trip(v, t);
    }
    lemma_parse_list(r, rest, enc, item, ok);
}

proof fn lemma_rings(rs: Seq<Seq<u64>>, rest: Seq<u8>)
    requires
        rings_fit(rs),
    ensures
        parse_rings(rings_wire(rs) + rest) == Some((rs, rings_wire(rs).len())),
{
    let enc = |r: Seq<u64>| ring_wire(r);
    let item = |t: Seq<u8>| parse_ring(t);
    let ok = |r: Seq<u64>| r.len() <= u64::MAX;
    assert forall|r: Seq<u64>| #[trigger] enc(r).len() >= 1 by {
        lemma_list_nonempty(r, |v: u64| varint(v));
    }
    assert forall|r: Seq<u64>, t: Seq<u8>| ok(r) implies #[trigger] item(enc(r) + t) == Some(
        (r, enc(r).len()),
    ) by {
        lemma_ring(r, t);
    }
    lemma_parse_list(rs, rest, enc, item, ok);
}

proof fn lemma_polygons(ps: Seq<Seq<Seq<u64>>>, rest: Seq<u8>)
    requires
        ps.len() <= u64::MAX,
        forall|i: int| 0 <= i < ps.len() ==> #[trigger] rings_fit(ps[i]),
    ensures
        parse_polygons(polygons_wire(ps) + rest) == Some((ps, polygons_wire(ps).len())),
{
    let enc = |p: Seq<Seq<u64>>| rings_wire(p);
    let item = |t: Seq<u8>| parse_rings(t);
    let ok = |p: Seq<Seq<u64>>| rings_fit(p);
    assert forall|p: Seq<Seq<u64>>| #[trigger] enc(p).len() >= 1 by {
        lemma_list_nonempty(p, |r: Seq<u64>| ring_wire(r));
    }
    assert forall|p: Seq<Seq<u64>>, t: Seq<u8>| ok(p) implies #[trigger] item(enc(p) + t) == Some(
        (p, enc(p).len()),
    ) by {
        lemma_rings(p, t);
    }
    lemma_parse_list(ps, rest, enc, item, ok);
}

proof fn lemma_tagged(tag: u64, payload: Seq<u8>, rest: Seq<u8>)
    requires
        tag <= 5,
    ensures
        read_varint(varint(tag) + payload + rest) == Some((tag, 1nat)),
        (varint(tag) + payload + rest).skip(1) == payload + rest,
{
    assert(varint(tag) + payload + rest =~= varint(tag) + (payload + rest));
    varint_round_trip(tag, payload + rest);
    assert((varint(tag) + payload + rest).skip(1) =~= payload + rest);
}

/// Reading back the bytes of a Hilbert geometry gives that geometry and the
/// number of bytes written, whatever follows them.
pub proof fn geometry_wire_round_trip(h: HilbertModel, rest: Seq<u8>)
    requires
        lengths_fit(h),
    ensures
        parse_geometry(geometry_wire(h) + rest) == Some((h, geometry_wire(h).len())),
{
    match h {
        HilbertModel::Point(p) => {
            lemma_tagged(0, varint(p), rest);
            varint_round_trip(p, rest);
        },
        HilbertModel::LineString(r) => {
            lemma_tagged(1, ring_wire(r), rest);
            lemma_ring(r, rest);
        },
        HilbertModel::MultiPoint(r) => {
            lemma_tagged(3, ring_wire(r), rest);
            lemma_ring(r, rest);
        },
        HilbertModel::Polygon(rs) => {
            lemma_tagged(2, rings_wire(rs), rest);
            lemma_rings(rs, rest);
        },
        HilbertModel::MultiLineString(rs) => {
            lemma_tagged(4, rings_wire(rs), rest);
            lemma_rings(rs, rest);
        },
        HilbertModel::MultiPolygon(ps) => {
            lemma_tagged(5, polygons_wire(ps), rest);
            lemma_polygons(ps, rest);
        },
    }
}

#[verifier::external_type_specification]
#[verifier::external_body]
pub struct ExEncodeError(bincode::error::EncodeError);

#[verifier::external_type_specification]
#[verifier::external_body]
pub struct ExDecodeError(bincode::error::DecodeError);

/// Relies on bincode::encode_to_vec with config::standard() on a u64: it
/// writes the variable-length encoding of the value, and writing to a vector
/// does not fail.
#[verifier::external_body]
fn varint_to_vec(v: u64) -> (r: Result<Vec<u8>, bincode::error::EncodeError>)
    ensures
        r is Ok,
        r->Ok_0@ == varint(v),
{
    bincode::encode_to_vec(v, bincode::config::standard())
}

/// Relies on bincode::decode_from_slice with config::standard() for a u64:
/// it reads one variable-length integer at the start of `data` and gives the
/// number of bytes read, or fails where the bytes end early or the marker
/// byte is not one of a u64.
#[verifier::external_body]
fn varint_from_slice(data: &[u8]) -> (r: Result<(u64, usize), bincode::error::DecodeError>)
    ensures
        r is Ok <==> read_varint(data@) is Some,
        r is Ok ==> r->Ok_0.0 == read_varint(data@)->Some_0.0 && r->Ok_0.1 as nat == read_varint(
            data@,
        )->Some_0.1,
{
    bincode::decode_from_slice::<u64, _>(data, bincode::config::standard())
}

/// Appends the encoding of an unsigned integer.
fn put_varint(out: &mut Vec<u8>, v: u64) -> (r: Result<(), HilbertError>)
    ensures
        r is Ok,
        final(out)@ == old(out)@ + varint(v),
{
    match varint_to_vec(v) {
        Ok(mut bytes) => {
            out.append(&mut bytes);
            Ok(())
        },
        Err(_) => Err(HilbertError::EncodingFailure),
    }
}

proof fn lemma_concat_step<A>(xs: Seq<A>, i: int, enc: spec_fn(A) -> Seq<u8>)
    requires
        0 <= i < xs.len(),
    ensures
        concat_wire(xs.take(i + 1), enc) == concat_wire(xs.take(i), enc) + enc(xs[i]),
{
    assert(xs.take(i + 1).drop_last() =~= xs.take(i));
}

/// Appends a list of curve positions: its length, then each position.
fn put_ring(out: &mut Vec<u8>, ring: &Vec<HilbertPoint>)
    ensures
        final(out)@ == old(out)@ + ring_wire(points_model(ring@)),
{
    let ghost xs = points_model(ring@);
    let ghost start = out@;
    let _ = put_varint(out, ring.len() as u64);
    let mut i: usize = 0;
    while i < ring.len()
        invariant
            i <= ring@.len(),
            xs == points_model(ring@),
            out@ == start + varint(xs.len() as u64) + concat_wire(
                xs.take(i as int),
                |v: u64| varint(v),
            ),
        decreases ring@.len() - i,
    {
        let _ = put_varint(out, ring[i].0);
        proof {
            lemma_concat_step(xs, i as int, |v: u64| varint(v));
        }
        i += 1;
    }
    assert(xs.take(i as int) =~= xs);
}

/// Appends a list of rings: its length, then each ring.
fn put_rings(out: &mut Vec<u8>, rings: &Vec<Vec<HilbertPoint>>)
    ensures
        final(out)@ == old(out)@ + rings_wire(rings_model(rings@)),
{
    let ghost xs = rings_model(rings@);
    let ghost start = out@;
    let _ = put_varint(out, rings.len() as u64);
    let mut i: usize = 0;
    while i < rings.len()
        invariant
            i <= rings@.len(),
            xs == rings_model(rings@),
            out@ == start + varint(xs.len() as u64) + concat_wire(
                xs.take(i as int),
                |r: Seq<u64>| ring_wire(r),
            ),
        decreases rings@.len() - i,
    {
        put_ring(out, &rings[i]);
        proof {
            lemma_concat_step(xs, i as int, |r: Seq<u64>| ring_wire(r));
        }
        i += 1;
    }
    assert(xs.take(i as int) =~= xs);
}

/// Appends a list of polygons: its length, then each polygon's rings.
fn put_polygons(out: &mut Vec<u8>, polys: &Vec<Vec<Vec<HilbertPoint>>>)
    ensures
        final(out)@ == old(out)@ + polygons_wire(polygons_model(polys@)),
{
    let ghost xs = polygons_model(polys@);
    let ghost start = out@;
    let _ = put_varint(out, polys.len() as u64);
    let mut i: usize = 0;
    while i < polys.len()
        invariant
            i <= polys@.len(),
            xs == polygons_model(polys@),
            out@ == start + varint(xs.len() as u64) + concat_wire(
                xs.take(i as int),
                |p: Seq<Seq<u64>>| rings_wire(p),
            ),
        decreases polys@.len() - i,
    {
        put_rings(out, &polys[i]);
        proof {
            lemma_concat_step(xs, i as int, |p: Seq<Seq<u64>>| rings_wire(p));
        }
        i += 1;
    }
    assert(xs.take(i as int) =~= xs);
}

proof fn lemma_rings_fit(rings: &Vec<Vec<HilbertPoint>>)
    ensures
        rings_fit(rings_model(rings@)),
{
    assert(rings@.len() == rings.len());
    assert forall|i: int| 0 <= i < rings@.len() implies #[trigger] rings_model(rings@)[i].len()
        <= u64::MAX by {
        assert(rings@[i]@.len() == rings@[i].len());
    }
}

/// The lists of a Hilbert geometry held in memory have lengths that fit
/// in 64 bits.
proof fn lemma_lengths_fit(h: &HilbertGeometry)
    ensures
        lengths_fit(h@),
{
    match h {
        HilbertGeometry::Point(_) => {},
        HilbertGeometry::LineString(v) => {
            assert(v@.len() == v.len());
        },
        HilbertGeometry::MultiPoint(v) => {
            assert(v@.len() == v.len());
        },
        HilbertGeometry::Polygon(v) => {
            lemma_rings_fit(v);
        },
        HilbertGeometry::MultiLineString(v) => {
            lemma_rings_fit(v);
        },
        HilbertGeometry::MultiPolygon(v) => {
            assert(v@.len() == v.len());
            assert forall|i: int| 0 <= i < v@.len() implies #[trigger] rings_fit(
                polygons_model(v@)[i],
            ) by {
                lemma_rings_fit(&v@[i]);
            }
        },
    }
}

/// Reads an unsigned integer at `pos`; gives it with the position after it.
fn take_varint(data: &[u8], pos: usize) -> (r: Result<(u64, usize), HilbertError>)
    requires
        pos <= data@.len(),
    ensures
        match read_varint(data@.skip(pos as int)) {
            Some((v, k)) => r is Ok && r->Ok_0.0 == v && r->Ok_0.1 == pos + k,
            None => r is Err && r->Err_0 == HilbertError::DecodingFailure,
        },
        r is Ok ==> pos <= r->Ok_0.1 <= data@.len(),
{
    let tail = vstd::slice::slice_subrange(data, pos, data.len());
    assert(tail@ =~= data@.skip(pos as int));
    match varint_from_slice(tail) {
        Ok((v, k)) => Ok((v, pos + k)),
        Err(_) => Err(HilbertError::DecodingFailure),
    }
}

/// Once one item fails to read, reading more items fails too.
proof fn lemma_many_none<A>(
    s: Seq<u8>,
    m: nat,
    n: nat,
    item: spec_fn(Seq<u8>) -> Option<(A, nat)>,
)
    requires
        m <= n,
        parse_many(s, m, item) is None,
    ensures
        parse_many(s, n, item) is None,
    decreases n,
{
    if m < n {
        lemma_many_none(s, m, (n - 1) as nat, item);
    }
}

/// Reads a list of curve positions at `pos`; gives it with the position after it.
fn take_ring(data: &[u8], pos: usize) -> (r: Result<(Vec<HilbertPoint>, usize), HilbertError>)
    requires
        pos <= data@.len(),
    ensures
        match parse_list(data@.skip(pos as int), |t: Seq<u8>| read_varint(t)) {
            Some((xs, k)) => r is Ok && points_model(r->Ok_0.0@) == xs && r->Ok_0.1 == pos + k,
            None => r is Err && r->Err_0 == HilbertError::DecodingFailure,
        },
        r is Ok ==> pos <= r->Ok_0.1 <= data@.len(),
{
    let ghost whole = data@.skip(pos as int);
    let (n, p0) = match take_varint(data, pos) {
        Ok(found) => found,
        Err(e) => return Err(e),
    };
    if n > (data.len() - p0) as u64 {
        return Err(HilbertError::DecodingFailure);
    }
    let ghost body = data@.skip(p0 as int);
    assert(whole.skip((p0 - pos) as int) =~= body);
    let mut out: Vec<HilbertPoint> = Vec::new();
    let mut q: usize = p0;
    let mut i: u64 = 0;
    while i < n
        invariant
            pos <= p0 <= q <= data@.len(),
            i <= n,
            body == data@.skip(p0 as int),
            whole == data@.skip(pos as int),
            read_varint(whole) == Some((n, (p0 - pos) as nat)),
            whole.skip((p0 - pos) as int) == body,
            n <= data@.len() - p0,
            parse_many(body, i as nat, |t: Seq<u8>| read_varint(t)) == Some(
                (points_model(out@), (q - p0) as nat),
            ),
        decreases n - i,
    {
        assert(body.skip(q - p0) =~= data@.skip(q as int));
        match take_varint(data, q) {
            Ok((x, q2)) => {
                let ghost prev = out@;
                out.push(HilbertPoint(x));
                q = q2;
                i += 1;
                assert(points_model(out@) =~= points_model(prev).push(points_model(out@).last()));
            },
            Err(e) => {
                proof {
                    assert(parse_many(body, (i + 1) as nat, |t: Seq<u8>| read_varint(t)) is None);
                    lemma_many_none(body, (i + 1) as nat, n as nat, |t: Seq<u8>| read_varint(t));
                }
                return Err(e);
            },
        }
    }
    Ok((out, q))
}

/// Reads a list of rings at `pos`; gives it with the position after it.
fn take_rings(data: &[u8], pos: usize) -> (r: Result<(Vec<Vec<HilbertPoint>>, usize), HilbertError>)
    requires
        pos <= data@.len(),
    ensures
        match parse_list(data@.skip(pos as int), |t: Seq<u8>| parse_ring(t)) {
            Some((xs, k)) => r is Ok && rings_model(r->Ok_0.0@) == xs && r->Ok_0.1 == pos + k,
            None => r is Err && r->Err_0 == HilbertError::DecodingFailure,
        },
        r is Ok ==> pos <= r->Ok_0.1 <= data@.len(),
{
    let ghost whole = data@.skip(pos as int);
    let (n, p0) = match take_varint(data, pos) {
        Ok(found) => found,
        Err(e) => return Err(e),
    };
    if n > (data.len() - p0) as u64 {
        return Err(HilbertError::DecodingFailure);
    }
    let ghost body = data@.skip(p0 as int);
    assert(whole.skip((p0 - pos) as int) =~= body);
    let mut out: Vec<Vec<HilbertPoint>> = Vec::new();
    let mut q: usize = p0;
    let mut i: u64 = 0;
    while i < n
        invariant
            pos <= p0 <= q <= data@.len(),
            i <= n,
            body == data@.skip(p0 as int),
            whole == data@.skip(pos as int),
            read_varint(whole) == Some((n, (p0 - pos) as nat)),
            whole.skip((p0 - pos) as int) == body,
            n <= data@.len() - p0,
            parse_many(body, i as nat, |t: Seq<u8>| parse_ring(t)) == Some(
                (rings_model(out@), (q - p0) as nat),
            ),
        decreases n - i,
    {
        assert(body.skip(q - p0) =~= data@.skip(q as int));
        match take_ring(data, q) {
            Ok((x, q2)) => {
                let ghost prev = out@;
                out.push(x);
                q = q2;
                i += 1;
                assert(rings_model(out@) =~= rings_model(prev).push(rings_model(out@).last()));
            },
            Err(e) => {
                proof {
                    assert(parse_many(body, (i + 1) as nat, |t: Seq<u8>| parse_ring(t)) is None);
                    lemma_many_none(body, (i + 1) as nat, n as nat, |t: Seq<u8>| parse_ring(t));
                }
                return Err(e);
            },
        }
    }
    Ok((out, q))
}

/// Reads a list of polygons at `pos`; gives it with the position after it.
fn take_polygons(data: &[u8], pos: usize) -> (r: Result<(Vec<Vec<Vec<HilbertPoint>>>, usize), HilbertError>)
    requires
        pos <= data@.len(),
    ensures
        match parse_list(data@.skip(pos as int), |t: Seq<u8>| parse_rings(t)) {
            Some((xs, k)) => r is Ok && polygons_model(r->Ok_0.0@) == xs && r->Ok_0.1 == pos + k,
            None => r is Err && r->Err_0 == HilbertError::DecodingFailure,
        },
        r is Ok ==> pos <= r->Ok_0.1 <= data@.len(),
{
    let ghost whole = data@.skip(pos as int);
    let (n, p0) = match take_varint(data, pos) {
        Ok(found) => found,
        Err(e) => return Err(e),
    };
    if n > (data.len() - p0) as u64 {
        return Err(HilbertError::DecodingFailure);
    }
    let ghost body = data@.skip(p0 as int);
    assert(whole.skip((p0 - pos) as int) =~= body);
    let mut out: Vec<Vec<Vec<HilbertPoint>>> = Vec::new();
    let mut q: usize = p0;
    let mut i: u64 = 0;
    while i < n
        invariant
            pos <= p0 <= q <= data@.len(),
            i <= n,
            body == data@.skip(p0 as int),
            whole == data@.skip(pos as int),
            read_varint(whole) == Some((n, (p0 - pos) as nat)),
            whole.skip((p0 - pos) as int) == body,
            n <= data@.len() - p0,
            parse_many(body, i as nat, |t: Seq<u8>| parse_rings(t)) == Some(
                (polygons_model(out@), (q - p0) as nat),
            ),
        decreases n - i,
    {
        assert(body.skip(q - p0) =~= data@.skip(q as int));
        match take_rings(data, q) {
            Ok((x, q2)) => {
                let ghost prev = out@;
                out.push(x);
                q = q2;
                i += 1;
                assert(polygons_model(out@) =~= polygons_model(prev).push(polygons_model(out@).last()));
            },
            Err(e) => {
                proof {
                    assert(parse_many(body, (i + 1) as nat, |t: Seq<u8>| parse_rings(t)) is None);
                    lemma_many_none(body, (i + 1) as nat, n as nat, |t: Seq<u8>| parse_rings(t));
                }
                return Err(e);
            },
        }
    }
    Ok((out, q))
}

impl HilbertGeometry {
    /// Writes this geometry as bytes in bincode's standard configuration: the
    /// variant's index, then its payload, each list as its length followed by
    /// its items. Reading the bytes back gives this geometry.
    pub fn encode_bincode(&self) -> (r: Result<Vec<u8>, HilbertError>)
        ensures
            r is Ok,
            r->Ok_0@ == geometry_wire(self@),
            parse_geometry(r->Ok_0@) == Some((self@, r->Ok_0@.len())),
    {
        let mut out: Vec<u8> = Vec::new();
        match self {
            HilbertGeometry::Point(p) => {
                let _ = put_varint(&mut out, 0);
                let _ = put_varint(&mut out, p.0);
            },
            HilbertGeometry::LineString(ring) => {
                let _ = put_varint(&mut out, 1);
                put_ring(&mut out, ring);
            },
            HilbertGeometry::Polygon(rings) => {
                let _ = put_varint(&mut out, 2);
                put_rings(&mut out, rings);
            },
            HilbertGeometry::MultiPoint(ring) => {
                let _ = put_varint(&mut out, 3);
                put_ring(&mut out, ring);
            },
            HilbertGeometry::MultiLineString(rings) => {
                let _ = put_varint(&mut out, 4);
                put_rings(&mut out, rings);
            },
            HilbertGeometry::MultiPolygon(polys) => {
                let _ = put_varint(&mut out, 5);
                put_polygons(&mut out, polys);
            },
        }
        proof {
            assert(out@ =~= geometry_wire(self@));
            lemma_lengths_fit(self);
            geometry_wire_round_trip(self@, Seq::empty());
            assert(geometry_wire(self@) + Seq::<u8>::empty() =~= geometry_wire(self@));
        }
        Ok(out)
    }

    /// Reads a geometry written by `encode_bincode` at the start of `data`;
    /// bytes after it are ignored. Fails with `DecodingFailure` on truncated
    /// or malformed bytes, on an unknown variant index and on an index
    /// written in the 8-byte form, which a 32-bit index never takes.
    pub fn decode_bincode(data: &[u8]) -> (r: Result<HilbertGeometry, HilbertError>)
        ensures
            match parse_geometry(data@) {
                Some((h, _)) => r is Ok && r->Ok_0@ == h,
                None => r is Err && r->Err_0 == HilbertError::DecodingFailure,
            },
    {
        assert(data@.skip(0) =~= data@);
        let (tag, p) = match take_varint(data, 0) {
            Ok(found) => found,
            Err(e) => return Err(e),
        };
        if p == 9 {
            Err(HilbertError::DecodingFailure)
        } else if tag == 0 {
            match take_varint(data, p) {
                Ok((v, _)) => Ok(HilbertGeometry::Point(HilbertPoint(v))),
                Err(e) => Err(e),
            }
        } else if tag == 1 || tag == 3 {
            match take_ring(data, p) {
                Ok((ring, _)) => Ok(
                    if tag == 1 {
                        HilbertGeometry::LineString(ring)
                    } else {
                        HilbertGeometry::MultiPoint(ring)
                    },
                ),
                Err(e) => Err(e),
            }
        } else if tag == 2 || tag == 4 {
            match take_rings(data, p) {
                Ok((rings, _)) => Ok(
                    if tag == 2 {
                        HilbertGeometry::Polygon(rings)
                    } else {
                        HilbertGeometry::MultiLineString(rings)
                    },
                ),
                Err(e) => Err(e),
            }
        } else if tag == 5 {
            match take_polygons(data, p) {
                Ok((polys, _)) => Ok(HilbertGeometry::MultiPolygon(polys)),
                Err(e) => Err(e),
            }
        } else {
            Err(HilbertError::DecodingFailure)
        }
    }
}

/// Turns geometries into bytes and back, through their Hilbert form and
/// bincode's standard configuration.
pub struct HilbertSerializer {}

impl HilbertSerializer {
    /// A serializer in bincode's standard configuration.
    pub fn new() -> Self {
        HilbertSerializer {}
    }

    /// Encodes a geometry into bytes. Decoding the bytes gives back `geom`
    /// exactly; a kind without Hilbert encoding is refused.
    pub fn encode(&self, geom: &Geometry) -> (r: Result<Vec<u8>, HilbertError>)
        ensures
            match geometry_encoding(geom@) {
                Some(h) => r is Ok && r->Ok_0@ == geometry_wire(h) && parse_geometry(r->Ok_0@)
                    == Some((h, r->Ok_0@.len())) && geometry_decoding(h) == geom@,
                None => r is Err && r->Err_0 == HilbertError::UnsupportedGeometryKind,
            },
    {
        match encode_geometry(geom) {
            Ok(hg) => hg.encode_bincode(),
            Err(e) => Err(e),
        }
    }

    /// Decodes bytes written by `encode` back into a geometry; bytes after
    /// the geometry are ignored.
    pub fn decode(&self, data: &[u8]) -> (r: Result<Geometry, HilbertError>)
        ensures
            match parse_geometry(data@) {
                Some((h, _)) => r is Ok && r->Ok_0@ == geometry_decoding(h),
                None => r is Err && r->Err_0 == HilbertError::DecodingFailure,
            },
    {
        match HilbertGeometry::decode_bincode(data) {
            Ok(hg) => Ok(decode_geometry(&hg)),
            Err(e) => Err(e),
        }
    }
}

} // verus!
