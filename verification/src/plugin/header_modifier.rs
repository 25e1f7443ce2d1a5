//! The built-in header modifiers: what they set and remove on the request and
//! on the response.
use vstd::prelude::*;
use crate::text::{str_chars, string_from_chars};
use crate::types::context::NylonContext;
use crate::plugin::session::same_request;

verus! {

/// A header to set.
#[derive(Debug)]
pub struct HeaderChange {
    pub name: String,
    pub value: String,
}

/// The payload of a header modifier: headers to remove and headers to set.
#[derive(Debug)]
pub struct HeaderPayload {
    pub remove: Option<Vec<String>>,
    pub set: Option<Vec<HeaderChange>>,
}

/// `c` in lower case when it is an ASCII capital.
pub open spec fn ascii_lower_char(c: char) -> char {
    if 'A' <= c <= 'Z' { ((c as u8) + 32) as char } else { c }
}

/// `s` with its ASCII capitals in lower case (what `str::to_ascii_lowercase` gives).
pub open spec fn ascii_lower(s: Seq<char>) -> Seq<char> {
    s.map_values(|c: char| ascii_lower_char(c))
}

/// `s` with its ASCII capitals in lower case.
pub fn to_ascii_lowercase(s: &str) -> (r: String)
    ensures
        r@ == ascii_lower(s@),
{
    let chars = str_chars(s);
    let mut out: Vec<char> = Vec::new();
    let mut i: usize = 0;
    while i < chars.len()
        invariant
            i <= chars@.len(),
            chars@ == s@,
            out@ == ascii_lower(chars@.subrange(0, i as int)),
        decreases chars.len() - i,
    {
        let c = chars[i];
        let l = if 'A' <= c && c <= 'Z' { ((c as u8) + 32) as char } else { c };
        out.push(l);
        i = i + 1;
        assert(out@ =~= ascii_lower(chars@.subrange(0, i as int)));
    }
    assert(chars@.subrange(0, i as int) =~= s@);
    string_from_chars(out.as_slice())
}

/// A change to the request's headers.
#[derive(Debug)]
pub enum HeaderOp {
    Remove(String),
    Append(String, String),
}

/// The changes a payload makes to the request, as text: each set header is
/// removed and appended again under its lower-case name; then each removed
/// header goes, by its lower-case name.
pub open spec fn spec_request_ops(set: Seq<HeaderChange>, remove: Seq<String>) -> Seq<(bool, Seq<char>, Seq<char>)>
    decreases set.len() + remove.len(),
{
    if remove.len() > 0 {
        spec_request_ops(set, remove.drop_last()).push((false, ascii_lower(remove.last()@), Seq::empty()))
    } else if set.len() > 0 {
        spec_request_ops(set.drop_last(), remove)
            + seq![(false, set.last().name@, Seq::empty()), (true, ascii_lower(set.last().name@), set.last().value@)]
    } else {
        Seq::empty()
    }
}

/// An op as (append?, name, value).
pub open spec fn op_view(op: HeaderOp) -> (bool, Seq<char>, Seq<char>) {
    match op {
        HeaderOp::Remove(n) => (false, n@, Seq::empty()),
        HeaderOp::Append(n, v) => (true, n@, v@),
    }
}

pub open spec fn ops_view(ops: Seq<HeaderOp>) -> Seq<(bool, Seq<char>, Seq<char>)> {
    ops.map_values(|op: HeaderOp| op_view(op))
}

pub open spec fn set_of(p: HeaderPayload) -> Seq<HeaderChange> {
    match p.set { Some(s) => s@, None => Seq::empty() }
}

pub open spec fn remove_of(p: HeaderPayload) -> Seq<String> {
    match p.remove { Some(r) => r@, None => Seq::empty() }
}

/// The ops for the request hold, for each set header in order, a removal of its
/// name followed by an append of its lower-case name with its value; after them,
/// a removal of each removed header's lower-case name, in order; nothing else.
pub open spec fn request_ops_shape(ops: Seq<(bool, Seq<char>, Seq<char>)>, set: Seq<HeaderChange>, remove: Seq<String>) -> bool {
    &&& ops.len() == 2 * set.len() + remove.len()
    &&& forall|k: int| 0 <= k < set.len() ==> {
            &&& ops[2 * k] == (false, (#[trigger] set[k]).name@, Seq::<char>::empty())
            &&& ops[2 * k + 1] == (true, ascii_lower(set[k].name@), set[k].value@)
        }
    &&& forall|k: int| 0 <= k < remove.len() ==>
            ops[2 * set.len() + k] == (false, ascii_lower((#[trigger] remove[k])@), Seq::<char>::empty())
}

/// Every set header is applied to the request (removed, then appended under its
/// lower-case name with its value), one after the other in the order given, and
/// then every removed header is removed by its lower-case name.
pub proof fn law_request_ops_apply_every_header(set: Seq<HeaderChange>, remove: Seq<String>)
    ensures
        request_ops_shape(spec_request_ops(set, remove), set, remove),
    decreases set.len() + remove.len(),
{
    let ops = spec_request_ops(set, remove);
    if remove.len() > 0 {
        law_request_ops_apply_every_header(set, remove.drop_last());
        let prev = spec_request_ops(set, remove.drop_last());
        assert(ops == prev.push((false, ascii_lower(remove.last()@), Seq::empty())));
        assert forall|k: int| 0 <= k < set.len() implies {
            &&& ops[2 * k] == (false, (#[trigger] set[k]).name@, Seq::<char>::empty())
            &&& ops[2 * k + 1] == (true, ascii_lower(set[k].name@), set[k].value@)
        } by {
            assert(ops[2 * k] == prev[2 * k]);
            assert(ops[2 * k + 1] == prev[2 * k + 1]);
        }
        assert forall|k: int| 0 <= k < remove.len() implies
            ops[2 * set.len() + k] == (false, ascii_lower((#[trigger] remove[k])@), Seq::<char>::empty()) by {
            if k < remove.len() - 1 {
                assert(remove.drop_last()[k] == remove[k]);
                assert(ops[2 * set.len() + k] == prev[2 * set.len() + k]);
            }
        }
    } else if set.len() > 0 {
        law_request_ops_apply_every_header(set.drop_last(), remove);
        let prev = spec_request_ops(set.drop_last(), remove);
        let n = set.len() - 1;
        assert forall|k: int| 0 <= k < set.len() implies {
            &&& ops[2 * k] == (false, (#[trigger] set[k]).name@, Seq::<char>::empty())
            &&& ops[2 * k + 1] == (true, ascii_lower(set[k].name@), set[k].value@)
        } by {
            if k < n {
                assert(set.drop_last()[k] == set[k]);
                assert(ops[2 * k] == prev[2 * k]);
                assert(ops[2 * k + 1] == prev[2 * k + 1]);
            }
        }
    }
}

/// What the request header modifier does to the request's headers, in order.
pub fn request_header_ops(payload: &HeaderPayload) -> (r: Vec<HeaderOp>)
    ensures
        ops_view(r@) == spec_request_ops(set_of(*payload), remove_of(*payload)),
        request_ops_shape(ops_view(r@), set_of(*payload), remove_of(*payload)),
{
    let mut ops: Vec<HeaderOp> = Vec::new();
    let ghost empty_rm: Seq<String> = Seq::empty();
    if let Some(set) = &payload.set {
        let mut i: usize = 0;
        while i < set.len()
            invariant
                i <= set@.len(),
                empty_rm == Seq::<String>::empty(),
                ops_view(ops@) == spec_request_ops(set@.subrange(0, i as int), empty_rm),
            decreases set.len() - i,
        {
            let ghost before = ops@;
            let a = HeaderOp::Remove(set[i].name.clone());
            let b = HeaderOp::Append(to_ascii_lowercase(set[i].name.as_str()), set[i].value.clone());
            ops.push(a);
            ops.push(b);
            proof {
                assert(ops@ == before.push(a).push(b));
                assert(ops_view(ops@) =~= ops_view(before) + seq![op_view(a), op_view(b)]);
                assert(set@.subrange(0, i + 1).drop_last() =~= set@.subrange(0, i as int));
                assert(set@.subrange(0, i + 1).last() == set@[i as int]);
                assert(ops_view(ops@) =~= spec_request_ops(set@.subrange(0, i + 1), empty_rm));
            }
            i = i + 1;
        }
        assert(set@.subrange(0, i as int) =~= set_of(*payload));
    } else {
        assert(ops_view(ops@) =~= spec_request_ops(set_of(*payload), empty_rm));
    }
    if let Some(remove) = &payload.remove {
        let mut j: usize = 0;
        assert(remove@.subrange(0, 0) =~= empty_rm);
        while j < remove.len()
            invariant
                j <= remove@.len(),
                ops_view(ops@) == spec_request_ops(set_of(*payload), remove@.subrange(0, j as int)),
            decreases remove.len() - j,
        {
            let ghost before = ops@;
            let a = HeaderOp::Remove(to_ascii_lowercase(remove[j].as_str()));
            ops.push(a);
            proof {
                assert(ops_view(ops@) =~= ops_view(before).push(op_view(a)));
                assert(remove@.subrange(0, j + 1).drop_last() =~= remove@.subrange(0, j as int));
                assert(ops_view(ops@) =~= spec_request_ops(set_of(*payload), remove@.subrange(0, j + 1)));
            }
            j = j + 1;
        }
        assert(remove@.subrange(0, j as int) =~= remove_of(*payload));
    } else {
        assert(empty_rm =~= remove_of(*payload));
    }
    proof {
        law_request_ops_apply_every_header(set_of(*payload), remove_of(*payload));
    }
    ops
}

/// The headers `set` put into `m`, in order.
pub open spec fn set_all(m: Map<Seq<char>, Seq<char>>, set: Seq<HeaderChange>) -> Map<Seq<char>, Seq<char>>
    decreases set.len(),
{
    if set.len() == 0 { m } else { set_all(m, set.drop_last()).insert(set.last().name@, set.last().value@) }
}

/// Every header of `set` is in the result, with the value its last occurrence
/// gives; any other name keeps what `m` had for it.
pub open spec fn sets_every_header(r: Map<Seq<char>, Seq<char>>, m: Map<Seq<char>, Seq<char>>, set: Seq<HeaderChange>) -> bool {
    &&& forall|k: int| 0 <= k < set.len() ==> r.contains_key((#[trigger] set[k]).name@)
    &&& forall|k: int| 0 <= k < set.len() && (forall|l: int| k < l < set.len() ==> set[l].name@ != set[k].name@)
            ==> r[(#[trigger] set[k]).name@] == set[k].value@
    &&& forall|n: Seq<char>| (forall|k: int| 0 <= k < set.len() ==> set[k].name@ != n)
            ==> (#[trigger] r.contains_key(n) == m.contains_key(n) && (m.contains_key(n) ==> r[n] == m[n]))
}

/// Setting headers in order puts every one of them in, each with the value of
/// its last occurrence, and leaves every other header as it was.
pub proof fn law_set_all_applies_every_header(m: Map<Seq<char>, Seq<char>>, set: Seq<HeaderChange>)
    ensures
        sets_every_header(set_all(m, set), m, set),
    decreases set.len(),
{
    if set.len() > 0 {
        let prev = set.drop_last();
        law_set_all_applies_every_header(m, prev);
        let r = set_all(m, set);
        let last = set.last();
        assert(r == set_all(m, prev).insert(last.name@, last.value@));
        assert forall|k: int| 0 <= k < set.len() implies r.contains_key((#[trigger] set[k]).name@) by {
            if k < set.len() - 1 {
                assert(prev[k] == set[k]);
            }
        }
        assert forall|k: int| 0 <= k < set.len() && (forall|l: int| k < l < set.len() ==> set[l].name@ != set[k].name@)
            implies r[(#[trigger] set[k]).name@] == set[k].value@ by {
            if k < set.len() - 1 {
                assert(prev[k] == set[k]);
                assert(set[set.len() - 1].name@ != set[k].name@);
                assert forall|l: int| k < l < prev.len() implies prev[l].name@ != prev[k].name@ by {
                    assert(prev[l] == set[l]);
                }
            }
        }
        assert forall|n: Seq<char>| (forall|k: int| 0 <= k < set.len() ==> set[k].name@ != n)
            implies (#[trigger] r.contains_key(n) == m.contains_key(n) && (m.contains_key(n) ==> r[n] == m[n])) by {
            assert(set[set.len() - 1].name@ != n);
            assert forall|k: int| 0 <= k < prev.len() implies prev[k].name@ != n by {
                assert(prev[k] == set[k]);
            }
        }
    }
}

/// What the response header modifier does: the set headers are added to the
/// response (as given), the removed ones are marked for removal.
pub fn response_header_changes(ctx: &mut NylonContext, payload: &HeaderPayload)
    ensures
        final(ctx).add_response_header@ == set_all(old(ctx).add_response_header@, set_of(*payload)),
        sets_every_header(final(ctx).add_response_header@, old(ctx).add_response_header@, set_of(*payload)),
        final(ctx).remove_response_header@.map_values(|s: String| s@)
            == old(ctx).remove_response_header@.map_values(|s: String| s@) + remove_of(*payload).map_values(|s: String| s@),
        final(ctx).set_response_status == old(ctx).set_response_status,
        final(ctx).set_response_body == old(ctx).set_response_body,
        same_request(*old(ctx), *final(ctx)),
{
    let ghost start_headers = ctx.add_response_header@;
    if let Some(set) = &payload.set {
        let mut i: usize = 0;
        while i < set.len()
            invariant
                i <= set@.len(),
                ctx.add_response_header@ == set_all(start_headers, set@.subrange(0, i as int)),
                ctx.remove_response_header == old(ctx).remove_response_header,
                ctx.set_response_status == old(ctx).set_response_status,
                ctx.set_response_body == old(ctx).set_response_body,
                same_request(*old(ctx), *ctx),
            decreases set.len() - i,
        {
            ctx.add_response_header.insert(set[i].name.clone(), set[i].value.clone());
            proof {
                assert(set@.subrange(0, i + 1).drop_last() =~= set@.subrange(0, i as int));
            }
            i = i + 1;
        }
        assert(set@.subrange(0, i as int) =~= set_of(*payload));
    }
    let ghost start_removed = ctx.remove_response_header@.map_values(|s: String| s@);
    if let Some(remove) = &payload.remove {
        let mut j: usize = 0;
        while j < remove.len()
            invariant
                j <= remove@.len(),
                ctx.remove_response_header@.map_values(|s: String| s@) == start_removed + remove@.subrange(0, j as int).map_values(|s: String| s@),
                ctx.add_response_header@ == set_all(start_headers, set_of(*payload)),
                ctx.set_response_status == old(ctx).set_response_status,
                ctx.set_response_body == old(ctx).set_response_body,
                same_request(*old(ctx), *ctx),
            decreases remove.len() - j,
        {
            let ghost before = ctx.remove_response_header@;
            let name = remove[j].clone();
            ctx.remove_response_header.push(name);
            proof {
                assert(ctx.remove_response_header@ == before.push(name));
                assert(ctx.remove_response_header@.map_values(|s: String| s@) =~= before.map_values(|s: String| s@).push(name@));
                assert(remove@.subrange(0, j + 1).map_values(|s: String| s@) =~= remove@.subrange(0, j as int).map_values(|s: String| s@).push(remove@[j as int]@));
            }
            j = j + 1;
        }
        assert(remove@.subrange(0, j as int) =~= remove_of(*payload));
    } else {
        assert(remove_of(*payload).map_values(|s: String| s@) =~= Seq::<Seq<char>>::empty());
        assert(start_removed + Seq::<Seq<char>>::empty() =~= start_removed);
    }
    proof {
        law_set_all_applies_every_header(start_headers, set_of(*payload));
    }
}

} // verus!
