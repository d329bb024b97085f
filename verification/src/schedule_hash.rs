//! Canonical, order-independent hashing of schedule placements.
//!
//! The canonical payload of a schedule is the JSON array of its placements,
//! each with its task id, the resource it ran on (when known) and its start
//! and end in integer microseconds, sorted. Metadata, metrics and the order
//! in which the placements were produced do not enter the hash.
use vstd::multiset::*;
use vstd::prelude::*;
use vstd::relations::*;
use vstd::seq_lib::*;
use vstd::string::*;

use crate::identity::{
    is_lower_hex_digit, json_string, json_string_literal, sha256_hex, sha256_lower_hex,
};
use crate::registry::join;
use crate::text::{dec, owned, push_decimal, push_str};

verus! {

/// One placement of a schedule: task id, start and end in microseconds.
#[derive(Debug, Clone, Copy, PartialEq, Eq)]
pub struct PlacementMicros {
    pub task_id: u64,
    pub start: i64,
    pub end: i64,
}

/// Placement order: by task id, then start, then end.
pub open spec fn placement_le(a: PlacementMicros, b: PlacementMicros) -> bool {
    a.task_id < b.task_id || (a.task_id == b.task_id && (a.start < b.start || (a.start == b.start
        && a.end <= b.end)))
}

pub open spec fn placement_order() -> spec_fn(PlacementMicros, PlacementMicros) -> bool {
    |a: PlacementMicros, b: PlacementMicros| placement_le(a, b)
}

pub proof fn lemma_placement_order_total()
    ensures
        total_ordering(placement_order()),
{
    let r = placement_order();
    assert(reflexive(r));
    assert(antisymmetric(r)) by {
        assert forall|x: PlacementMicros, y: PlacementMicros|
            #[trigger] r(x, y) && #[trigger] r(y, x) implies x == y by {}
    }
    assert(transitive(r));
    assert(strongly_connected(r));
}

/// Decimal text of a signed integer, with a leading `-` when negative.
pub open spec fn int_text(x: int) -> Seq<char> {
    if x < 0 {
        "-"@ + dec((-x) as nat)
    } else {
        dec(x as nat)
    }
}

/// The compact JSON object of one placement; `resource_id` is left out when
/// absent.
pub open spec fn placement_json(p: PlacementMicros, resource_id: Option<Seq<char>>) -> Seq<char> {
    "{\"task_id\":"@ + dec(p.task_id as nat) + match resource_id {
        Some(r) => ",\"resource_id\":"@ + json_string_literal(r),
        None => Seq::empty(),
    } + ",\"start\":"@ + int_text(p.start as int) + ",\"end\":"@ + int_text(p.end as int) + "}"@
}

/// The canonical payload: the JSON array of the sorted placements.
pub open spec fn spec_canonical_json(
    placements: Seq<PlacementMicros>,
    resource_id: Option<Seq<char>>,
) -> Seq<char> {
    "["@ + join(
        placements.sort_by(placement_order()).map_values(
            |p: PlacementMicros| placement_json(p, resource_id),
        ),
        ","@,
    ) + "]"@
}

pub open spec fn spec_canonical_hash(
    placements: Seq<PlacementMicros>,
    resource_id: Option<Seq<char>>,
) -> Seq<char> {
    sha256_lower_hex(vstd::utf8::encode_utf8(spec_canonical_json(placements, resource_id)))
}

fn le(a: PlacementMicros, b: PlacementMicros) -> (r: bool)
    ensures
        r == placement_le(a, b),
{
    a.task_id < b.task_id || (a.task_id == b.task_id && (a.start < b.start || (a.start == b.start
        && a.end <= b.end)))
}

/// The placements sorted by the placement order.
fn sort_placements(v: &Vec<PlacementMicros>) -> (r: Vec<PlacementMicros>)
    ensures
        sorted_by(r@, placement_order()),
        r@.to_multiset() == v@.to_multiset(),
{
    broadcast use group_to_multiset_ensures;

    let mut r: Vec<PlacementMicros> = Vec::new();
    let mut i: usize = 0;
    while i < v.len()
        invariant
            i <= v.len(),
            sorted_by(r@, placement_order()),
            r@.to_multiset() == v@.take(i as int).to_multiset(),
        decreases v.len() - i,
    {
        let x = v[i];
        let mut j: usize = 0;
        while j < r.len() && le(r[j], x)
            invariant
                j <= r.len(),
                forall|k: int| 0 <= k < j ==> placement_le(#[trigger] r@[k], x),
            decreases r.len() - j,
        {
            j = j + 1;
        }
        let ghost old_r = r@;
        r.insert(j, x);
        proof {
            lemma_placement_order_total();
            assert(r@ == old_r.insert(j as int, x));
            assert forall|a: int, b: int| 0 <= a < b < r@.len() implies #[trigger] placement_order()(
                r@[a],
                r@[b],
            ) by {
                if b < j {
                    assert(placement_order()(old_r[a], old_r[b]));
                } else if b == j {
                    assert(placement_le(old_r[a], x));
                } else if a < j {
                    assert(placement_le(old_r[a], x));
                    assert(!placement_le(old_r[j as int], x));
                    if j as int != b - 1 {
                        assert(placement_order()(old_r[j as int], old_r[b - 1]));
                    }
                } else if a == j {
                    assert(!placement_le(old_r[j as int], x));
                    if j as int != b - 1 {
                        assert(placement_order()(old_r[j as int], old_r[b - 1]));
                    }
                } else {
                    assert(placement_order()(old_r[a - 1], old_r[b - 1]));
                }
            }
            assert(v@.take(i + 1) =~= v@.take(i as int).push(x));
            to_multiset_insert(old_r, j as int, x);
            to_multiset_build(v@.take(i as int), x);
        }
        i = i + 1;
    }
    proof {
        assert(v@.take(v@.len() as int) =~= v@);
    }
    r
}

fn push_int(out: &mut String, x: i64)
    ensures
        final(out)@ == old(out)@ + int_text(x as int),
{
    if x < 0 {
        push_str(out, "-");
        let m: u64 = (0i128 - (x as i128)) as u64;
        push_decimal(out, m);
    } else {
        push_decimal(out, x as u64);
    }
}

pub open spec fn opt_str_view(o: Option<&str>) -> Option<Seq<char>> {
    match o {
        Some(r) => Some(r@),
        None => None,
    }
}

fn push_placement(out: &mut String, p: PlacementMicros, rid_lit: &Option<String>, rid: Ghost<
    Option<Seq<char>>,
>)
    requires
        match *rid_lit {
            Some(l) => rid@ is Some && l@ == json_string_literal(rid@->Some_0),
            None => rid@ is None,
        },
    ensures
        final(out)@ == old(out)@ + placement_json(p, rid@),
{
    push_str(out, "{\"task_id\":");
    push_decimal(out, p.task_id);
    match rid_lit {
        Some(l) => {
            push_str(out, ",\"resource_id\":");
            push_str(out, l.as_str());
        },
        None => {},
    }
    push_str(out, ",\"start\":");
    push_int(out, p.start);
    push_str(out, ",\"end\":");
    push_int(out, p.end);
    push_str(out, "}");
    proof {
        assert(final(out)@ =~= old(out)@ + placement_json(p, rid@));
    }
}

fn placements_array(sorted: &Vec<PlacementMicros>, resource_id: Option<&str>) -> (s: String)
    ensures
        s@ == "["@ + join(
            sorted@.map_values(|p: PlacementMicros| placement_json(p, opt_str_view(resource_id))),
            ","@,
        ) + "]"@,
{
    let ghost rid = opt_str_view(resource_id);
    let ghost items = sorted@.map_values(|p: PlacementMicros| placement_json(p, rid));
    let rid_lit: Option<String> = match resource_id {
        Some(r) => Some(json_string(r)),
        None => None,
    };
    let mut s = owned("[");
    let mut i: usize = 0;
    while i < sorted.len()
        invariant
            i <= sorted.len(),
            items == sorted@.map_values(|p: PlacementMicros| placement_json(p, rid)),
            match rid_lit {
                Some(l) => rid is Some && l@ == json_string_literal(rid->Some_0),
                None => rid is None,
            },
            s@ == "["@ + join(items.take(i as int), ","@),
        decreases sorted.len() - i,
    {
        if i > 0 {
            push_str(&mut s, ",");
        }
        let p = sorted[i];
        push_placement(&mut s, p, &rid_lit, Ghost(rid));
        proof {
            assert(items[i as int] == placement_json(p, rid));
            assert(items.take(i + 1).drop_last() =~= items.take(i as int));
            if i == 0 {
                assert(s@ =~= "["@ + join(items.take(1), ","@));
            } else {
                assert(s@ =~= "["@ + join(items.take(i + 1), ","@));
            }
        }
        i = i + 1;
    }
    push_str(&mut s, "]");
    proof {
        assert(items.take(sorted@.len() as int) =~= items);
    }
    s
}

/// The canonical JSON payload of a schedule's placements.
pub fn canonical_json(placements: &Vec<PlacementMicros>, resource_id: Option<&str>) -> (s: String)
    ensures
        s@ == spec_canonical_json(placements@, opt_str_view(resource_id)),
{
    let sorted = sort_placements(placements);
    proof {
        lemma_placement_order_total();
        placements@.lemma_sort_by_ensures(placement_order());
        lemma_sorted_unique(sorted@, placements@.sort_by(placement_order()), placement_order());
    }
    placements_array(&sorted, resource_id)
}

/// SHA-256 (lowercase hex) of the canonical placement payload.
pub fn canonical_schedule_hash(placements: &Vec<PlacementMicros>, resource_id: Option<&str>) -> (h:
    String)
    ensures
        h@ == spec_canonical_hash(placements@, opt_str_view(resource_id)),
        h@.len() == 64,
        forall|i: int| 0 <= i < h@.len() ==> is_lower_hex_digit(#[trigger] h@[i]),
{
    let c = canonical_json(placements, resource_id);
    sha256_hex(c.as_str().as_bytes())
}

/// The hash does not depend on the order of the placements: two schedules
/// with the same placements (counted with repetition) hash alike.
pub proof fn lemma_hash_ignores_placement_order(
    a: Seq<PlacementMicros>,
    b: Seq<PlacementMicros>,
    resource_id: Option<Seq<char>>,
)
    requires
        a.to_multiset() == b.to_multiset(),
    ensures
        spec_canonical_json(a, resource_id) == spec_canonical_json(b, resource_id),
        spec_canonical_hash(a, resource_id) == spec_canonical_hash(b, resource_id),
{
    lemma_placement_order_total();
    a.lemma_sort_by_ensures(placement_order());
    b.lemma_sort_by_ensures(placement_order());
    lemma_sorted_unique(a.sort_by(placement_order()), b.sort_by(placement_order()), placement_order());
}

} // verus!
