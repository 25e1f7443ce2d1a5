//! The routing table: which route a request belongs to (by header or host), and
//! which service of that route its method and path reach.
use vstd::prelude::*;
use vstd::string::*;
use crate::error::NylonError;
use crate::text::{split_pieces, split_text, first_occurrence, str_chars, substring};
use crate::text_map::TextMap;
use crate::types::context::text_pairs;
use crate::types::eval::text_eq;
use crate::types::json::{JsonModel, JsonValue, json_text, leaf_models, sp_walk, to_json_text, walk_json};
use crate::types::route::{MiddlewareItem, PathConfig, RouteConfig};
use crate::types::services::{ServiceItem, ServiceType};
use crate::types::template::{Expr, ExprModel, extract_and_parse_templates, template_parts};

verus! {

#[verifier::external_type_specification]
#[verifier::external_body]
#[verifier::reject_recursive_types(T)]
pub struct ExRouter<T>(matchit::Router<T>);

/// The routes registered in a router, in the order they were inserted, each
/// with its value.
pub uninterp spec fn router_contents(r: matchit::Router<usize>) -> Seq<(Seq<char>, usize)>;

/// What inserting a route pattern does, given the routes already there: `None`
/// when it is accepted, else the text of the error.
pub uninterp spec fn insert_outcome(routes: Seq<(Seq<char>, usize)>, pattern: Seq<char>) -> Option<Seq<char>>;

/// What a lookup of a path finds, given the routes registered: the value of the
/// matching route and the parameters it binds, or nothing.
pub uninterp spec fn route_lookup(routes: Seq<(Seq<char>, usize)>, path: Seq<char>) -> Option<(usize, Seq<(Seq<char>, Seq<char>)>)>;

/// Calls `matchit::Router::new`: a router without routes.
#[verifier::external_body]
fn router_new() -> (r: matchit::Router<usize>)
    ensures
        router_contents(r) == Seq::<(Seq<char>, usize)>::empty(),
{
    matchit::Router::new()
}

/// The most named parameters a pattern may hold: the router names them `a` to
/// `z` internally and panics on the twenty-sixth.
pub const MAX_ROUTE_PARAMS: usize = 25;

/// An upper bound on the named parameters the router finds in a pattern: the
/// `{` that are not escaped (`{{` and `}}` stand for a brace) and do not open a
/// catch-all (`{*`).
pub open spec fn route_params(p: Seq<char>) -> nat
    decreases p.len(),
{
    if p.len() == 0 {
        0
    } else if p.len() >= 2 && ((p[0] == '{' && p[1] == '{') || (p[0] == '}' && p[1] == '}')) {
        route_params(p.subrange(2, p.len() as int))
    } else if p[0] == '{' && !(p.len() >= 2 && p[1] == '*') {
        1 + route_params(p.drop_first())
    } else {
        route_params(p.drop_first())
    }
}

/// Counts the parameters of a pattern as `route_params` does.
pub fn count_route_params(p: &str) -> (r: usize)
    ensures
        r == route_params(p@),
{
    let cs = str_chars(p);
    let ghost s = cs@;
    let mut i: usize = 0;
    let mut n: usize = 0;
    assert(s.subrange(0, s.len() as int) =~= s);
    while i < cs.len()
        invariant
            s == cs@,
            i <= s.len(),
            n <= i,
            n + route_params(s.subrange(i as int, s.len() as int)) == route_params(s),
        decreases cs.len() - i,
    {
        let ghost rest = s.subrange(i as int, s.len() as int);
        if i + 1 < cs.len() && ((cs[i] == '{' && cs[i + 1] == '{') || (cs[i] == '}' && cs[i + 1] == '}')) {
            assert(rest.subrange(2, rest.len() as int) =~= s.subrange(i + 2, s.len() as int));
            i = i + 2;
        } else {
            assert(rest.drop_first() =~= s.subrange(i + 1, s.len() as int));
            if cs[i] == '{' && !(i + 1 < cs.len() && cs[i + 1] == '*') {
                n = n + 1;
            }
            i = i + 1;
        }
    }
    assert(s.subrange(i as int, s.len() as int) =~= Seq::<char>::empty());
    n
}

/// Calls `matchit::Router::insert`. An accepted pattern is added with its value;
/// a refused one gives the error's text (the router is then left unsaid). The
/// router panics on a pattern with more than `MAX_ROUTE_PARAMS` parameters, so
/// such a pattern is not handed to it.
#[verifier::external_body]
fn router_insert(router: &mut matchit::Router<usize>, pattern: String, value: usize) -> (r: Result<(), String>)
    requires
        route_params(pattern@) <= MAX_ROUTE_PARAMS,
    ensures
        match insert_outcome(router_contents(*old(router)), pattern@) {
            None => r is Ok && router_contents(*final(router)) == router_contents(*old(router)).push((pattern@, value)),
            Some(text) => r matches Err(e) && e@ == text,
        },
{
    router.insert(pattern, value).map_err(|e| e.to_string())
}

/// Calls `matchit::Router::at`: the value of the route matching `path` (one of the
/// values inserted) and the parameters it binds, in the order the router gives them.
#[verifier::external_body]
fn router_at(router: &matchit::Router<usize>, path: &str) -> (r: Option<(usize, Vec<(String, String)>)>)
    ensures
        match route_lookup(router_contents(*router), path@) {
            None => r.is_none(),
            Some((v, ps)) => r matches Some((v2, ps2)) && v2 == v && text_pairs(ps2@) == ps,
        },
        r matches Some((v, _)) ==> exists|i: int| 0 <= i < router_contents(*router).len()
            && #[trigger] router_contents(*router)[i].1 == v,
{
    match router.at(path) {
        Ok(m) => Some((*m.value, m.params.iter().map(|(k, v)| (k.to_string(), v.to_string())).collect())),
        Err(_) => None,
    }
}

/// A middleware item by value.
pub struct MiddlewareModel {
    pub group: Option<Seq<char>>,
    pub plugin: Option<Seq<char>>,
    pub request_filter: Option<Seq<char>>,
    pub response_filter: Option<Seq<char>>,
    pub response_body_filter: Option<Seq<char>>,
    pub logging: Option<Seq<char>>,
    pub payload: Option<JsonModel>,
}

pub open spec fn opt_text(o: Option<String>) -> Option<Seq<char>> {
    match o { Some(s) => Some(s@), None => None }
}

pub open spec fn mw_model(m: MiddlewareItem) -> MiddlewareModel {
    MiddlewareModel {
        group: opt_text(m.group),
        plugin: opt_text(m.plugin),
        request_filter: opt_text(m.request_filter),
        response_filter: opt_text(m.response_filter),
        response_body_filter: opt_text(m.response_body_filter),
        logging: opt_text(m.logging),
        payload: match m.payload { Some(p) => Some(p.model()), None => None },
    }
}

fn copy_opt_text(o: &Option<String>) -> (r: Option<String>)
    ensures
        opt_text(r) == opt_text(*o),
{
    match o {
        Some(s) => Some(s.clone()),
        None => None,
    }
}

/// A copy of a middleware item.
pub fn copy_middleware(m: &MiddlewareItem) -> (r: MiddlewareItem)
    ensures
        mw_model(r) == mw_model(*m),
{
    MiddlewareItem {
        group: copy_opt_text(&m.group),
        plugin: copy_opt_text(&m.plugin),
        request_filter: copy_opt_text(&m.request_filter),
        response_filter: copy_opt_text(&m.response_filter),
        response_body_filter: copy_opt_text(&m.response_body_filter),
        logging: copy_opt_text(&m.logging),
        payload: match &m.payload {
            Some(p) => Some(p.deep_copy()),
            None => None,
        },
    }
}

/// A middleware item with the templates found in the text of its payload.
pub struct ParsedMiddleware {
    pub item: MiddlewareItem,
    /// For each payload string holding templates: its path and the parsed template.
    pub payload_ast: Vec<(String, Vec<Expr>)>,
}

/// The templated strings among the leaves of a payload, with their parts.
pub open spec fn templated_leaves(leaves: Seq<(Seq<char>, JsonModel)>) -> Seq<(Seq<char>, Seq<ExprModel>)>
    decreases leaves.len(),
{
    if leaves.len() == 0 {
        Seq::empty()
    } else {
        let rest = templated_leaves(leaves.drop_last());
        match leaves.last().1 {
            JsonModel::Str(s) => if template_parts(s).len() > 0 {
                rest.push((leaves.last().0, template_parts(s)))
            } else {
                rest
            },
            _ => rest,
        }
    }
}

/// The templates of a payload: those of its leaves, found from the root path `""`.
pub open spec fn payload_templates(payload: Option<JsonModel>) -> Seq<(Seq<char>, Seq<ExprModel>)> {
    match payload {
        Some(p) => templated_leaves(sp_walk(p, Seq::empty())),
        None => Seq::empty(),
    }
}

pub open spec fn ast_model(a: Seq<(String, Vec<Expr>)>) -> Seq<(Seq<char>, Seq<ExprModel>)> {
    a.map_values(|e: (String, Vec<Expr>)| (e.0@, Expr::models(e.1@)))
}

/// A parsed item stands for item `m`: the same item and the templates of its payload.
pub open spec fn parsed_from(p: ParsedMiddleware, m: MiddlewareModel) -> bool {
    mw_model(p.item) == m && ast_model(p.payload_ast@) == payload_templates(m.payload)
}

fn parse_one(m: &MiddlewareItem) -> (r: ParsedMiddleware)
    ensures
        parsed_from(r, mw_model(*m)),
{
    let mut payload_ast: Vec<(String, Vec<Expr>)> = Vec::new();
    if let Some(payload) = &m.payload {
        let leaves = walk_json(payload, String::new());
        let ghost lm = leaf_models(leaves@);
        let mut i: usize = 0;
        while i < leaves.len()
            invariant
                i <= leaves@.len(),
                lm == leaf_models(leaves@),
                ast_model(payload_ast@) == templated_leaves(lm.subrange(0, i as int)),
            decreases leaves.len() - i,
        {
            proof {
                assert(lm.subrange(0, i + 1).drop_last() =~= lm.subrange(0, i as int));
                assert(lm[i as int] == (leaves@[i as int].0@, leaves@[i as int].1.model()));
            }
            match &leaves[i].1 {
                JsonValue::Str(s) => {
                    match extract_and_parse_templates(s.as_str()) {
                        Ok(ast) => {
                            if ast.len() > 0 {
                                let ghost before = payload_ast@;
                                payload_ast.push((leaves[i].0.clone(), ast));
                                proof {
                                    assert(ast_model(payload_ast@) =~= ast_model(before).push((leaves@[i as int].0@, template_parts(s@))));
                                }
                            }
                        },
                        Err(_) => {},
                    }
                },
                _ => {},
            }
            i = i + 1;
        }
        assert(lm.subrange(0, i as int) =~= lm);
    } else {
        assert(ast_model(payload_ast@) =~= Seq::<(Seq<char>, Seq<ExprModel>)>::empty());
    }
    ParsedMiddleware { item: copy_middleware(m), payload_ast }
}


/// The items of the first group of that name.
pub open spec fn group_lookup(groups: Seq<(String, Vec<MiddlewareItem>)>, g: Seq<char>) -> Option<Seq<MiddlewareItem>>
    decreases groups.len(),
{
    if groups.len() == 0 {
        None
    } else if groups[0].0@ == g {
        Some(groups[0].1@)
    } else {
        group_lookup(groups.drop_first(), g)
    }
}

/// What one configured item stands for: a group's items, or the item itself.
pub open spec fn expand_one(m: MiddlewareItem, groups: Seq<(String, Vec<MiddlewareItem>)>) -> Seq<MiddlewareModel> {
    match m.group {
        Some(g) => match group_lookup(groups, g@) {
            Some(list) => list.map_values(|x: MiddlewareItem| mw_model(x)),
            None => Seq::empty(),
        },
        None => seq![mw_model(m)],
    }
}

/// What configured items stand for, groups expanded in place.
pub open spec fn expand_all(items: Seq<MiddlewareItem>, groups: Seq<(String, Vec<MiddlewareItem>)>) -> Seq<MiddlewareModel>
    decreases items.len(),
{
    if items.len() == 0 {
        Seq::empty()
    } else {
        expand_all(items.drop_last(), groups) + expand_one(items.last(), groups)
    }
}

/// Parsed items standing, one for one, for the given items.
pub open spec fn parsed_list(ps: Seq<ParsedMiddleware>, ms: Seq<MiddlewareModel>) -> bool {
    ps.len() == ms.len() && forall|i: int| 0 <= i < ps.len() ==> #[trigger] parsed_from(ps[i], ms[i])
}

fn find_group<'a>(groups: &'a Vec<(String, Vec<MiddlewareItem>)>, g: &str) -> (r: Option<&'a Vec<MiddlewareItem>>)
    ensures
        match r {
            Some(list) => group_lookup(groups@, g@) == Some(list@),
            None => group_lookup(groups@, g@).is_none(),
        },
{
    let mut i: usize = 0;
    assert(groups@.subrange(0, groups@.len() as int) =~= groups@);
    while i < groups.len()
        invariant
            i <= groups@.len(),
            group_lookup(groups@, g@) == group_lookup(groups@.subrange(i as int, groups@.len() as int), g@),
        decreases groups.len() - i,
    {
        let ghost rest = groups@.subrange(i as int, groups@.len() as int);
        assert(rest.drop_first() =~= groups@.subrange(i + 1, groups@.len() as int));
        if text_eq(groups[i].0.as_str(), g) {
            return Some(&groups[i].1);
        }
        i = i + 1;
    }
    None
}

/// Parses the items, groups expanded in place, after what `out` holds.
fn parse_middleware_list(items: &Vec<MiddlewareItem>, groups: &Vec<(String, Vec<MiddlewareItem>)>, out: &mut Vec<ParsedMiddleware>)
    ensures
        forall|ms: Seq<MiddlewareModel>| parsed_list(old(out)@, ms) ==> parsed_list(final(out)@, ms + expand_all(items@, groups@)),
{
    let ghost start = out@;
    let mut i: usize = 0;
    while i < items.len()
        invariant
            i <= items@.len(),
            out@.len() >= start.len(),
            out@.subrange(0, start.len() as int) == start,
            parsed_list(out@.subrange(start.len() as int, out@.len() as int), expand_all(items@.subrange(0, i as int), groups@)),
        decreases items.len() - i,
    {
        let ghost before = out@;
        proof {
            assert(items@.subrange(0, i + 1).drop_last() =~= items@.subrange(0, i as int));
            assert(items@.subrange(0, i + 1).last() == items@[i as int]);
        }
        match &items[i].group {
            Some(g) => {
                match find_group(groups, g.as_str()) {
                    Some(list) => {
                        let mut k: usize = 0;
                        while k < list.len()
                            invariant
                                k <= list@.len(),
                                out@.len() == before.len() + k,
                                out@.subrange(0, before.len() as int) == before,
                                forall|x: int| 0 <= x < k ==> #[trigger] parsed_from(out@[before.len() + x], mw_model(list@[x])),
                            decreases list.len() - k,
                        {
                            let p = parse_one(&list[k]);
                            let ghost pre = out@;
                            out.push(p);
                            proof {
                                assert(out@.subrange(0, before.len() as int) =~= pre.subrange(0, before.len() as int));
                                assert forall|x: int| 0 <= x < k + 1 implies #[trigger] parsed_from(out@[before.len() + x], mw_model(list@[x])) by {
                                    if x < k {
                                        assert(out@[before.len() + x] == pre[before.len() + x]);
                                    }
                                }
                            }
                            k = k + 1;
                        }
                        proof {
                            let exp = expand_all(items@.subrange(0, i + 1), groups@);
                            let prev = expand_all(items@.subrange(0, i as int), groups@);
                            assert(exp =~= prev + list@.map_values(|x: MiddlewareItem| mw_model(x)));
                            let seg = out@.subrange(start.len() as int, out@.len() as int);
                            let pseg = before.subrange(start.len() as int, before.len() as int);
                            assert forall|x: int| 0 <= x < seg.len() implies #[trigger] parsed_from(seg[x], exp[x]) by {
                                if x < pseg.len() {
                                    assert(seg[x] == pseg[x]);
                                } else {
                                    assert(seg[x] == out@[before.len() + (x - pseg.len())]);
                                }
                            }
                            assert(out@.subrange(0, start.len() as int) =~= before.subrange(0, start.len() as int));
                        }
                    },
                    None => {
                        proof {
                            assert(expand_all(items@.subrange(0, i + 1), groups@) =~= expand_all(items@.subrange(0, i as int), groups@));
                        }
                    },
                }
            },
            None => {
                let p = parse_one(&items[i]);
                out.push(p);
                proof {
                    let exp = expand_all(items@.subrange(0, i + 1), groups@);
                    let prev = expand_all(items@.subrange(0, i as int), groups@);
                    assert(exp =~= prev.push(mw_model(items@[i as int])));
                    let seg = out@.subrange(start.len() as int, out@.len() as int);
                    let pseg = before.subrange(start.len() as int, before.len() as int);
                    assert forall|x: int| 0 <= x < seg.len() implies #[trigger] parsed_from(seg[x], exp[x]) by {
                        if x < pseg.len() {
                            assert(seg[x] == pseg[x]);
                        }
                    }
                    assert(out@.subrange(0, start.len() as int) =~= before.subrange(0, start.len() as int));
                }
            },
        }
        i = i + 1;
    }
    proof {
        assert(items@.subrange(0, i as int) =~= items@);
        assert forall|ms: Seq<MiddlewareModel>| parsed_list(start, ms) implies parsed_list(out@, ms + expand_all(items@, groups@)) by {
            let full = ms + expand_all(items@, groups@);
            let seg = out@.subrange(start.len() as int, out@.len() as int);
            assert forall|x: int| 0 <= x < out@.len() implies #[trigger] parsed_from(out@[x], full[x]) by {
                if x < start.len() {
                    assert(out@[x] == out@.subrange(0, start.len() as int)[x]);
                } else {
                    assert(out@[x] == seg[x - start.len()]);
                }
            }
        }
    }
}

/// Parses the configured items, groups expanded in place.
pub fn parsed_middleware(items: &Vec<MiddlewareItem>, groups: &Vec<(String, Vec<MiddlewareItem>)>) -> (r: Vec<ParsedMiddleware>)
    ensures
        parsed_list(r@, expand_all(items@, groups@)),
{
    let mut out: Vec<ParsedMiddleware> = Vec::new();
    assert(parsed_list(out@, Seq::empty()));
    parse_middleware_list(items, groups, &mut out);
    assert(Seq::<MiddlewareModel>::empty() + expand_all(items@, groups@) =~= expand_all(items@, groups@));
    out
}


/// Where a matched path goes: a service, with the middleware of its route and of
/// its path.
pub struct RouteService {
    pub service: String,
    pub rewrite: Option<String>,
    pub service_type: ServiceType,
    pub route_middleware: Vec<ParsedMiddleware>,
    pub path_middleware: Option<Vec<ParsedMiddleware>>,
}

/// The first service of that name.
pub open spec fn find_service(services: Seq<ServiceItem>, name: Seq<char>) -> Option<int>
    decreases services.len(),
{
    if services.len() == 0 {
        None
    } else if services[0].name@ == name {
        Some(0)
    } else {
        match find_service(services.drop_first(), name) {
            Some(i) => Some(i + 1),
            None => None,
        }
    }
}

proof fn lemma_find_service(services: Seq<ServiceItem>, name: Seq<char>)
    ensures
        find_service(services, name) matches Some(i) ==> 0 <= i < services.len() && services[i].name@ == name,
    decreases services.len(),
{
    if services.len() > 0 {
        lemma_find_service(services.drop_first(), name);
    }
}

fn find_service_exec(services: &Vec<ServiceItem>, name: &str) -> (r: Option<usize>)
    ensures
        match r {
            Some(i) => find_service(services@, name@) == Some(i as int) && i < services@.len(),
            None => find_service(services@, name@).is_none(),
        },
{
    proof { lemma_find_service(services@, name@); }
    let mut i: usize = 0;
    while i < services.len()
        invariant
            i <= services@.len(),
            forall|x: int| 0 <= x < i ==> services@[x].name@ != name@,
        decreases services.len() - i,
    {
        if text_eq(services[i].name.as_str(), name) {
            proof {
                lemma_find_first(services@, name@, i as int);
            }
            return Some(i);
        }
        i = i + 1;
    }
    proof {
        lemma_find_none(services@, name@);
    }
    None
}

proof fn lemma_find_first(services: Seq<ServiceItem>, name: Seq<char>, i: int)
    requires
        0 <= i < services.len(),
        services[i].name@ == name,
        forall|x: int| 0 <= x < i ==> services[x].name@ != name,
    ensures
        find_service(services, name) == Some(i),
    decreases i,
{
    if i > 0 {
        let d = services.drop_first();
        assert forall|x: int| 0 <= x < i - 1 implies d[x].name@ != name by {
            assert(d[x] == services[x + 1]);
        }
        lemma_find_first(d, name, i - 1);
    }
}

proof fn lemma_find_none(services: Seq<ServiceItem>, name: Seq<char>)
    requires
        forall|x: int| 0 <= x < services.len() ==> services[x].name@ != name,
    ensures
        find_service(services, name).is_none(),
    decreases services.len(),
{
    if services.len() > 0 {
        let d = services.drop_first();
        assert forall|x: int| 0 <= x < d.len() implies d[x].name@ != name by {
            assert(d[x] == services[x + 1]);
        }
        lemma_find_none(d, name);
    }
}

pub open spec fn invalid_path_message(path: JsonModel) -> Seq<char> {
    "Invalid path type: "@ + json_text(path)
}

pub open spec fn string_or_empty(v: JsonModel) -> Seq<char> {
    match v { JsonModel::Str(s) => s, _ => Seq::empty() }
}

/// The paths of a path entry: a list (non-strings count as empty paths) or one path.
pub open spec fn spec_match_paths(path: JsonModel) -> Option<Seq<Seq<char>>> {
    match path {
        JsonModel::Array(a) => Some(a.map_values(|v: JsonModel| string_or_empty(v))),
        JsonModel::Str(p) => Some(seq![p]),
        _ => None,
    }
}

/// The paths a path entry registers.
pub fn extract_match_path(path: &PathConfig) -> (r: Result<Vec<String>, NylonError>)
    ensures
        match spec_match_paths(path.path.model()) {
            Some(ps) => r matches Ok(v) && v@.len() == ps.len()
                && forall|i: int| 0 <= i < v@.len() ==> #[trigger] v@[i]@ == ps[i],
            None => r matches Err(NylonError::ConfigError(m)) && m@ == invalid_path_message(path.path.model()),
        },
{
    match &path.path {
        JsonValue::Array(arr) => {
            proof { crate::types::json::lemma_models_index(arr@); }
            let mut out: Vec<String> = Vec::new();
            let mut i: usize = 0;
            while i < arr.len()
                invariant
                    i <= arr@.len(),
                    forall|x: int| 0 <= x < arr@.len() ==> #[trigger] JsonValue::models(arr@)[x] == arr@[x].model(),
                    JsonValue::models(arr@).len() == arr@.len(),
                    out@.len() == i,
                    forall|x: int| 0 <= x < i ==> #[trigger] out@[x]@ == string_or_empty(arr@[x].model()),
                decreases arr.len() - i,
            {
                let p = match &arr[i] {
                    JsonValue::Str(t) => t.clone(),
                    _ => String::new(),
                };
                out.push(p);
                i = i + 1;
            }
            Ok(out)
        },
        JsonValue::Str(p) => {
            let mut out: Vec<String> = Vec::new();
            out.push(p.clone());
            Ok(out)
        },
        _ => {
            proof { reveal_strlit("Invalid path type: "); }
            Err(NylonError::ConfigError(String::from_str("Invalid path type: ").concat(to_json_text(&path.path).as_str())))
        },
    }
}

pub open spec fn service_not_found_message(name: Seq<char>) -> Seq<char> {
    "Service "@ + name + " not found"@
}

/// The service a path entry of a route goes to.
pub fn create_route_service(
    path: &PathConfig,
    services: &Vec<ServiceItem>,
    route: &RouteConfig,
    groups: &Vec<(String, Vec<MiddlewareItem>)>,
) -> (r: Result<RouteService, NylonError>)
    ensures
        match find_service(services@, path.service.name@) {
            None => r matches Err(NylonError::ConfigError(m)) && m@ == service_not_found_message(path.service.name@),
            Some(k) => r matches Ok(rs) && {
                &&& rs.service@ == path.service.name@
                &&& opt_text(rs.rewrite) == opt_text(path.service.rewrite)
                &&& rs.service_type == services@[k].service_type
                &&& parsed_list(rs.route_middleware@, expand_all(match route.middleware { Some(m) => m@, None => Seq::empty() }, groups@))
                &&& match path.middleware {
                        Some(m) => rs.path_middleware matches Some(pm) && parsed_list(pm@, expand_all(m@, groups@)),
                        None => rs.path_middleware.is_none(),
                    }
            },
        },
{
    let k = match find_service_exec(services, path.service.name.as_str()) {
        Some(k) => k,
        None => {
            proof {
                reveal_strlit("Service ");
                reveal_strlit(" not found");
            }
            return Err(NylonError::ConfigError(String::from_str("Service ").concat(path.service.name.as_str()).concat(" not found")));
        },
    };
    let route_middleware = match &route.middleware {
        Some(m) => parsed_middleware(m, groups),
        None => {
            let empty: Vec<MiddlewareItem> = Vec::new();
            let r = parsed_middleware(&empty, groups);
            assert(empty@ =~= Seq::<MiddlewareItem>::empty());
            r
        },
    };
    let path_middleware = match &path.middleware {
        Some(m) => Some(parsed_middleware(m, groups)),
        None => None,
    };
    Ok(RouteService {
        service: path.service.name.clone(),
        rewrite: copy_opt_text(&path.service.rewrite),
        service_type: services[k].service_type,
        route_middleware,
        path_middleware,
    })
}

/// The patterns a path entry registers: with methods, `/<METHOD><path>` for each
/// method and path; without, the paths themselves.
pub open spec fn method_patterns(methods: Seq<Seq<char>>, paths: Seq<Seq<char>>) -> Seq<Seq<char>>
    decreases methods.len(),
{
    if methods.len() == 0 {
        Seq::empty()
    } else {
        method_patterns(methods.drop_last(), paths) + paths.map_values(|p: Seq<char>| "/"@ + methods.last() + p)
    }
}

pub open spec fn path_patterns(methods: Option<Seq<Seq<char>>>, paths: Seq<Seq<char>>) -> Seq<Seq<char>> {
    match methods {
        Some(ms) => method_patterns(ms, paths),
        None => paths,
    }
}

/// The error of a pattern with too many parameters.
pub open spec fn too_many_params_text() -> Seq<char> {
    "Too many route parameters."@
}

/// Inserting the patterns in order, each with value `v`: the routes after, or the
/// first error's text; a pattern with more than `MAX_ROUTE_PARAMS` parameters is
/// refused without being handed to the router.
pub open spec fn insert_all(routes: Seq<(Seq<char>, usize)>, patterns: Seq<Seq<char>>, v: usize) -> Result<Seq<(Seq<char>, usize)>, Seq<char>>
    decreases patterns.len(),
{
    if patterns.len() == 0 {
        Ok(routes)
    } else {
        match insert_all(routes, patterns.drop_last(), v) {
            Ok(rs) => if route_params(patterns.last()) > MAX_ROUTE_PARAMS {
                Err(too_many_params_text())
            } else {
                match insert_outcome(rs, patterns.last()) {
                    None => Ok(rs.push((patterns.last(), v))),
                    Some(t) => Err(t),
                }
            },
            Err(t) => Err(t),
        }
    }
}

/// The characters of each string.
pub open spec fn texts(v: Seq<String>) -> Seq<Seq<char>> {
    v.map_values(|s: String| s@)
}

pub open spec fn opt_texts(o: Option<Vec<String>>) -> Option<Seq<Seq<char>>> {
    match o { Some(v) => Some(texts(v@)), None => None }
}

/// Building the router of a route from path entry `i` on, with `routes` registered
/// so far: the routes in the end, or the message of the first error.
pub open spec fn build_router(paths: Seq<PathConfig>, services: Seq<ServiceItem>, i: int, routes: Seq<(Seq<char>, usize)>) -> Result<Seq<(Seq<char>, usize)>, Seq<char>>
    decreases paths.len() - i,
{
    if i < 0 || i >= paths.len() {
        Ok(routes)
    } else {
        match spec_match_paths(paths[i].path.model()) {
            None => Err(invalid_path_message(paths[i].path.model())),
            Some(ps) => match find_service(services, paths[i].service.name@) {
                None => Err(service_not_found_message(paths[i].service.name@)),
                Some(_) => match insert_all(routes, path_patterns(opt_texts(paths[i].methods), ps), i as usize) {
                    Err(t) => Err("Failed to register route: "@ + t),
                    Ok(rs) => build_router(paths, services, i + 1, rs),
                },
            },
        }
    }
}

/// The router of one route and the services its routes lead to.
pub struct RouteRouter {
    router: matchit::Router<usize>,
    services: Vec<RouteService>,
}

impl RouteRouter {
    #[verifier::type_invariant]
    closed spec fn wf(self) -> bool {
        forall|i: int| 0 <= i < router_contents(self.router).len() ==> (#[trigger] router_contents(self.router)[i]).1 < self.services@.len()
    }

    pub closed spec fn routes(&self) -> Seq<(Seq<char>, usize)> {
        router_contents(self.router)
    }

    pub closed spec fn targets(&self) -> Seq<RouteService> {
        self.services@
    }

    /// The service and parameters of the route matching `path`.
    pub fn at(&self, path: &str) -> (r: Option<(&RouteService, Vec<(String, String)>)>)
        ensures
            match route_lookup(self.routes(), path@) {
                None => r.is_none(),
                Some((v, ps)) => r matches Some((s, ps2)) && v < self.targets().len()
                    && *s == self.targets()[v as int] && text_pairs(ps2@) == ps,
            },
    {
        proof { use_type_invariant(self); }
        match router_at(&self.router, path) {
            Some((v, params)) => {
                proof {
                    let i = choose|i: int| 0 <= i < router_contents(self.router).len() && #[trigger] router_contents(self.router)[i].1 == v;
                }
                Some((&self.services[v], params))
            },
            None => None,
        }
    }
}

pub open spec fn register_failed(t: Seq<char>) -> Seq<char> {
    "Failed to register route: "@ + t
}

fn insert_patterns(router: &mut matchit::Router<usize>, patterns: &Vec<String>, v: usize) -> (r: Result<(), NylonError>)
    ensures
        match insert_all(router_contents(*old(router)), texts(patterns@), v) {
            Ok(rs) => r is Ok && router_contents(*final(router)) == rs,
            Err(t) => r matches Err(NylonError::ConfigError(m)) && m@ == register_failed(t),
        },
{
    let ghost start = router_contents(*router);
    let ghost pv = texts(patterns@);
    let mut i: usize = 0;
    let mut failure: Option<String> = None;
    proof {
        if pv.len() == 0 {
            assert(pv.subrange(0, 0) =~= pv);
        }
    }
    while i < patterns.len()
        invariant_except_break
            i <= patterns@.len(),
            failure.is_none(),
            i == pv.len() ==> pv.subrange(0, i as int) == pv,
            insert_all(start, pv.subrange(0, i as int), v) == Ok::<Seq<(Seq<char>, usize)>, Seq<char>>(router_contents(*router)),
        invariant
            pv == texts(patterns@),
            start == router_contents(*old(router)),
        ensures
            match failure {
                None => insert_all(start, pv, v) == Ok::<Seq<(Seq<char>, usize)>, Seq<char>>(router_contents(*router)),
                Some(t) => insert_all(start, pv, v) == Err::<Seq<(Seq<char>, usize)>, Seq<char>>(t@),
            },
        decreases patterns.len() - i,
    {
        proof {
            assert(pv.subrange(0, i + 1).drop_last() =~= pv.subrange(0, i as int));
            assert(pv.subrange(0, i + 1).last() == patterns@[i as int]@);
        }
        if count_route_params(patterns[i].as_str()) > MAX_ROUTE_PARAMS {
            proof {
                reveal_strlit("Too many route parameters.");
                lemma_insert_all_err(start, pv, i as int + 1, v);
            }
            failure = Some(String::from_str("Too many route parameters."));
            break;
        }
        match router_insert(router, patterns[i].clone(), v) {
            Ok(()) => {},
            Err(text) => {
                proof {
                    lemma_insert_all_err(start, pv, i as int + 1, v);
                }
                failure = Some(text);
                break;
            },
        }
        i = i + 1;
        proof {
            if i == patterns@.len() {
                assert(pv.subrange(0, i as int) =~= pv);
            }
        }
    }
    match failure {
        Some(text) => {
            proof { reveal_strlit("Failed to register route: "); }
            Err(NylonError::ConfigError(String::from_str("Failed to register route: ").concat(text.as_str())))
        },
        None => Ok(()),
    }
}

/// Once inserting a prefix of the patterns fails, inserting them all fails the same way.
proof fn lemma_insert_all_err(routes: Seq<(Seq<char>, usize)>, ps: Seq<Seq<char>>, n: int, v: usize)
    requires
        0 <= n <= ps.len(),
        insert_all(routes, ps.subrange(0, n), v) is Err,
    ensures
        insert_all(routes, ps, v) == insert_all(routes, ps.subrange(0, n), v),
    decreases ps.len() - n,
{
    if n < ps.len() {
        assert(ps.subrange(0, n + 1).drop_last() =~= ps.subrange(0, n));
        lemma_insert_all_err(routes, ps, n + 1, v);
    } else {
        assert(ps.subrange(0, n) =~= ps);
    }
}


/// `t` is the service that path entry `path` of `route` goes to.
pub open spec fn target_for(
    t: RouteService,
    path: PathConfig,
    services: Seq<ServiceItem>,
    route: RouteConfig,
    groups: Seq<(String, Vec<MiddlewareItem>)>,
) -> bool {
    match find_service(services, path.service.name@) {
        None => false,
        Some(k) => {
            &&& t.service@ == path.service.name@
            &&& opt_text(t.rewrite) == opt_text(path.service.rewrite)
            &&& t.service_type == services[k].service_type
            &&& parsed_list(t.route_middleware@, expand_all(match route.middleware { Some(m) => m@, None => Seq::empty() }, groups))
            &&& match path.middleware {
                    Some(m) => t.path_middleware matches Some(pm) && parsed_list(pm@, expand_all(m@, groups)),
                    None => t.path_middleware.is_none(),
                }
        },
    }
}

/// The patterns of a path entry (see `path_patterns`).
pub fn build_patterns(methods: &Option<Vec<String>>, paths: &Vec<String>) -> (r: Vec<String>)
    ensures
        texts(r@) == path_patterns(opt_texts(*methods), texts(paths@)),
{
    match methods {
        None => {
            let mut out: Vec<String> = Vec::new();
            let mut i: usize = 0;
            while i < paths.len()
                invariant
                    i <= paths@.len(),
                    texts(out@) == texts(paths@).subrange(0, i as int),
                decreases paths.len() - i,
            {
                let ghost before = out@;
                let c = paths[i].clone();
                out.push(c);
                assert(out@ == before.push(c));
                assert(texts(out@) =~= texts(before).push(c@));
                assert(texts(out@) =~= texts(paths@).subrange(0, i + 1));
                i = i + 1;
            }
            assert(texts(paths@).subrange(0, i as int) =~= texts(paths@));
            out
        },
        Some(ms) => {
            proof { reveal_strlit("/"); }
            let mut out: Vec<String> = Vec::new();
            let mut j: usize = 0;
            while j < ms.len()
                invariant
                    j <= ms@.len(),
                    texts(out@) == method_patterns(texts(ms@).subrange(0, j as int), texts(paths@)),
                decreases ms.len() - j,
            {
                let ghost before = texts(out@);
                let mut i: usize = 0;
                while i < paths.len()
                    invariant
                        i <= paths@.len(),
                        j < ms@.len(),
                        texts(out@) == before + texts(paths@).subrange(0, i as int).map_values(|p: Seq<char>| "/"@ + ms@[j as int]@ + p),
                    decreases paths.len() - i,
                {
                    let pattern = String::from_str("/").concat(ms[j].as_str()).concat(paths[i].as_str());
                    let ghost pre = out@;
                    out.push(pattern);
                    assert(out@ == pre.push(pattern));
                    assert(texts(out@) =~= texts(pre).push(pattern@));
                    assert(texts(out@) =~= before + texts(paths@).subrange(0, i + 1).map_values(|p: Seq<char>| "/"@ + ms@[j as int]@ + p));
                    i = i + 1;
                }
                proof {
                    assert(texts(paths@).subrange(0, i as int) =~= texts(paths@));
                    let msj = texts(ms@).subrange(0, j + 1);
                    assert(msj.drop_last() =~= texts(ms@).subrange(0, j as int));
                    assert(msj.last() == ms@[j as int]@);
                }
                j = j + 1;
            }
            assert(texts(ms@).subrange(0, j as int) =~= texts(ms@));
            out
        },
    }
}

/// Inserting patterns successfully keeps what was there and adds entries of value `v`.
proof fn lemma_insert_all_values(routes: Seq<(Seq<char>, usize)>, ps: Seq<Seq<char>>, v: usize)
    requires
        insert_all(routes, ps, v) is Ok,
    ensures
        insert_all(routes, ps, v)->Ok_0.len() >= routes.len(),
        forall|j: int| 0 <= j < routes.len() ==> insert_all(routes, ps, v)->Ok_0[j] == routes[j],
        forall|j: int| routes.len() <= j < insert_all(routes, ps, v)->Ok_0.len() ==> insert_all(routes, ps, v)->Ok_0[j].1 == v,
    decreases ps.len(),
{
    if ps.len() > 0 {
        lemma_insert_all_values(routes, ps.drop_last(), v);
    }
}

/// The router of a route: each path entry's patterns lead to that entry's service.
pub fn create_matchit_router(
    route: &RouteConfig,
    services: &Vec<ServiceItem>,
    groups: &Vec<(String, Vec<MiddlewareItem>)>,
) -> (r: Result<RouteRouter, NylonError>)
    ensures
        match build_router(route.paths@, services@, 0, Seq::empty()) {
            Ok(rs) => r matches Ok(rr) && rr.routes() == rs && rr.targets().len() == route.paths@.len()
                && forall|i: int| 0 <= i < route.paths@.len() ==>
                    #[trigger] target_for(rr.targets()[i], route.paths@[i], services@, *route, groups@),
            Err(m) => r matches Err(NylonError::ConfigError(msg)) && msg@ == m,
        },
{
    let mut router = router_new();
    let mut targets: Vec<RouteService> = Vec::new();
    let mut i: usize = 0;
    while i < route.paths.len()
        invariant
            i <= route.paths@.len(),
            build_router(route.paths@, services@, 0, Seq::empty()) == build_router(route.paths@, services@, i as int, router_contents(router)),
            targets@.len() == i,
            forall|x: int| 0 <= x < router_contents(router).len() ==> (#[trigger] router_contents(router)[x]).1 < i,
            forall|x: int| 0 <= x < i ==> #[trigger] target_for(targets@[x], route.paths@[x], services@, *route, groups@),
        decreases route.paths.len() - i,
    {
        let path = &route.paths[i];
        let paths = match extract_match_path(path) {
            Ok(p) => p,
            Err(e) => {
                return Err(e);
            },
        };
        let service = match create_route_service(path, services, route, groups) {
            Ok(s) => s,
            Err(e) => {
                return Err(e);
            },
        };
        let patterns = build_patterns(&path.methods, &paths);
        proof {
            assert(texts(paths@) =~= spec_match_paths(path.path.model()).unwrap());
        }
        let ghost before = router_contents(router);
        match insert_patterns(&mut router, &patterns, i) {
            Ok(()) => {},
            Err(e) => {
                return Err(e);
            },
        }
        proof {
            lemma_insert_all_values(before, texts(patterns@), i);
            assert forall|x: int| 0 <= x < router_contents(router).len() implies (#[trigger] router_contents(router)[x]).1 < i + 1 by {
                if x < before.len() {
                    assert(router_contents(router)[x] == before[x]);
                }
            }
        }
        targets.push(service);
        i = i + 1;
    }
    proof {
        assert forall|x: int| 0 <= x < router_contents(router).len() implies (#[trigger] router_contents(router)[x]).1 < targets@.len() by {}
    }
    Ok(RouteRouter { router, services: targets })
}


/// `host-<h>` for each `|`-separated host of `value`.
pub open spec fn host_keys(value: Seq<char>) -> Seq<Seq<char>> {
    split_pieces(value, "|"@, 0).map_values(|h: Seq<char>| "host-"@ + h)
}

/// The keys a route is found under: `host-<h>` for each `|`-separated host, or
/// `header-<value>`; `None` for another kind of matcher.
pub open spec fn matcher_keys(kind: Seq<char>, value: Seq<char>) -> Option<Seq<Seq<char>>> {
    if kind == "host"@ {
        Some(host_keys(value))
    } else if kind == "header"@ {
        Some(seq!["header-"@ + value])
    } else {
        None
    }
}

/// `m` with each key set to `name`, in order.
pub open spec fn put_keys(m: Map<Seq<char>, Seq<char>>, keys: Seq<Seq<char>>, name: Seq<char>) -> Map<Seq<char>, Seq<char>>
    decreases keys.len(),
{
    if keys.len() == 0 {
        m
    } else {
        put_keys(m, keys.drop_last(), name).insert(keys.last(), name)
    }
}

/// The characters of each value.
pub open spec fn text_values(m: Map<Seq<char>, String>) -> Map<Seq<char>, Seq<char>> {
    m.map_values(|s: String| s@)
}

pub open spec fn invalid_kind_message(kind: Seq<char>) -> Seq<char> {
    "Invalid route kind: "@ + kind
}

/// Records under which keys a route is found.
pub fn process_route_matcher(route: &RouteConfig, store_route: &mut TextMap<String>) -> (r: Result<(), NylonError>)
    ensures
        match matcher_keys(route.route.kind@, route.route.value@) {
            Some(keys) => r is Ok && text_values(final(store_route)@) == put_keys(text_values(old(store_route)@), keys, route.name@),
            None => (r matches Err(NylonError::ConfigError(m)) && m@ == invalid_kind_message(route.route.kind@))
                && final(store_route)@ == old(store_route)@,
        },
{
    proof {
        reveal_strlit("host");
        reveal_strlit("header");
        reveal_strlit("|");
        reveal_strlit("host-");
        reveal_strlit("header-");
        reveal_strlit("Invalid route kind: ");
    }
    if text_eq(route.route.kind.as_str(), "host") {
        let hosts = split_text(route.route.value.as_str(), "|");
        let ghost keys = host_keys(route.route.value@);
        let ghost start = text_values(store_route@);
        let mut i: usize = 0;
        while i < hosts.len()
            invariant
                i <= hosts@.len(),
                hosts@.len() == keys.len(),
                keys == host_keys(route.route.value@),
                forall|x: int| 0 <= x < hosts@.len() ==> #[trigger] hosts@[x]@ == split_pieces(route.route.value@, "|"@, 0)[x],
                text_values(store_route@) == put_keys(start, keys.subrange(0, i as int), route.name@),
            decreases hosts.len() - i,
        {
            let key = String::from_str("host-").concat(hosts[i].as_str());
            let ghost pre = store_route@;
            let name = route.name.clone();
            store_route.insert(key, name);
            proof {
                assert(text_values(store_route@) =~= text_values(pre).insert(key@, name@));
                assert(keys[i as int] == "host-"@ + hosts@[i as int]@);
                assert(keys.subrange(0, i + 1).drop_last() =~= keys.subrange(0, i as int));
                assert(keys.subrange(0, i + 1).last() == keys[i as int]);
            }
            i = i + 1;
        }
        assert(keys.subrange(0, i as int) =~= keys);
        assert(matcher_keys(route.route.kind@, route.route.value@) == Some(keys));
        Ok(())
    } else if text_eq(route.route.kind.as_str(), "header") {
        let key = String::from_str("header-").concat(route.route.value.as_str());
        let ghost pre = store_route@;
        let name = route.name.clone();
        store_route.insert(key, name);
        proof {
            assert(text_values(store_route@) =~= text_values(pre).insert(key@, name@));
            let keys = seq!["header-"@ + route.route.value@];
            assert(keys.drop_last() =~= Seq::<Seq<char>>::empty());
            assert(put_keys(text_values(pre), keys.drop_last(), name@) == text_values(pre));
            assert(put_keys(text_values(pre), keys, name@) == text_values(pre).insert(key@, name@));
            assert(matcher_keys(route.route.kind@, route.route.value@) == Some(keys));
        }
        Ok(())
    } else {
        Err(NylonError::ConfigError(String::from_str("Invalid route kind: ").concat(route.route.kind.as_str())))
    }
}

/// The first error of storing the routes from route `i` on, if any.
pub open spec fn store_error(routes: Seq<RouteConfig>, services: Seq<ServiceItem>, i: int) -> Option<Seq<char>>
    decreases routes.len() - i,
{
    if i < 0 || i >= routes.len() {
        None
    } else {
        match matcher_keys(routes[i].route.kind@, routes[i].route.value@) {
            None => Some(invalid_kind_message(routes[i].route.kind@)),
            Some(_) => match build_router(routes[i].paths@, services, 0, Seq::empty()) {
                Err(m) => Some(m),
                Ok(_) => store_error(routes, services, i + 1),
            },
        }
    }
}

/// The keys of the first `n` routes, later routes replacing earlier ones.
pub open spec fn route_keys(routes: Seq<RouteConfig>, n: int) -> Map<Seq<char>, Seq<char>>
    decreases n,
{
    if n <= 0 {
        Map::empty()
    } else {
        match matcher_keys(routes[n - 1].route.kind@, routes[n - 1].route.value@) {
            Some(keys) => put_keys(route_keys(routes, n - 1), keys, routes[n - 1].name@),
            None => route_keys(routes, n - 1),
        }
    }
}

/// No route after `i` has the same name.
pub open spec fn last_of_name(routes: Seq<RouteConfig>, i: int) -> bool {
    forall|j: int| i < j < routes.len() ==> routes[j].name@ != routes[i].name@
}

/// Routes by the keys they are found under, and the router of each route.
pub struct RouteTable {
    pub store_route: TextMap<String>,
    pub routers: TextMap<RouteRouter>,
}

pub open spec fn route_missing_message() -> Seq<char> {
    "Route map missing for given name"@
}

pub open spec fn no_match_message(method: Seq<char>, path: Seq<char>) -> Seq<char> {
    "No route matched for method: "@ + method + ", path: "@ + path
}

pub open spec fn no_route_message(host: Seq<char>, method: Seq<char>, path: Seq<char>) -> Seq<char> {
    "No route matched for host: "@ + host + ", method: "@ + method + ", path: "@ + path
}

/// The lookup of a request in the router of a route: the path itself first,
/// then `/<METHOD><path>`.
pub open spec fn spec_route_match(rr: RouteRouter, path: Seq<char>, method: Seq<char>) -> Option<(usize, Seq<(Seq<char>, Seq<char>)>)> {
    match route_lookup(rr.routes(), path) {
        Some(x) => Some(x),
        None => route_lookup(rr.routes(), "/"@ + method + path),
    }
}

impl RouteTable {
    /// Builds the table of the configured routes; fails on the first route whose
    /// matcher kind is unknown or whose router cannot be built.
    pub fn store(
        routes: &Vec<RouteConfig>,
        services: &Vec<ServiceItem>,
        groups: &Vec<(String, Vec<MiddlewareItem>)>,
    ) -> (r: Result<RouteTable, NylonError>)
        ensures
            match store_error(routes@, services@, 0) {
                Some(m) => r matches Err(NylonError::ConfigError(msg)) && msg@ == m,
                None => r matches Ok(t) && {
                    &&& text_values(t.store_route@) == route_keys(routes@, routes@.len() as int)
                    &&& forall|n: Seq<char>| #[trigger] t.routers@.contains_key(n)
                            <==> exists|i: int| 0 <= i < routes@.len() && routes@[i].name@ == n
                    &&& forall|i: int| 0 <= i < routes@.len() && #[trigger] last_of_name(routes@, i) ==> {
                            &&& build_router(routes@[i].paths@, services@, 0, Seq::empty()) == Ok::<Seq<(Seq<char>, usize)>, Seq<char>>(t.routers@[routes@[i].name@].routes())
                            &&& t.routers@[routes@[i].name@].targets().len() == routes@[i].paths@.len()
                            &&& forall|k: int| 0 <= k < routes@[i].paths@.len() ==> #[trigger] target_for(
                                    t.routers@[routes@[i].name@].targets()[k], routes@[i].paths@[k], services@, routes@[i], groups@)
                        }
                },
            },
    {
        let mut store_route: TextMap<String> = TextMap::new();
        let mut routers: TextMap<RouteRouter> = TextMap::new();
        let mut i: usize = 0;
        while i < routes.len()
            invariant
                i <= routes@.len(),
                store_error(routes@, services@, 0) == store_error(routes@, services@, i as int),
                text_values(store_route@) == route_keys(routes@, i as int),
                forall|n: Seq<char>| #[trigger] routers@.contains_key(n)
                    <==> exists|x: int| 0 <= x < i && routes@[x].name@ == n,
                forall|x: int| 0 <= x < i && (forall|j: int| x < j < i ==> routes@[j].name@ != routes@[x].name@) ==> {
                    &&& build_router(routes@[x].paths@, services@, 0, Seq::empty()) == Ok::<Seq<(Seq<char>, usize)>, Seq<char>>(routers@[routes@[x].name@].routes())
                    &&& routers@[routes@[x].name@].targets().len() == routes@[x].paths@.len()
                    &&& forall|k: int| 0 <= k < routes@[x].paths@.len() ==> #[trigger] target_for(
                            routers@[routes@[x].name@].targets()[k], routes@[x].paths@[k], services@, routes@[x], groups@)
                },
            decreases routes.len() - i,
        {
            let route = &routes[i];
            match process_route_matcher(route, &mut store_route) {
                Ok(()) => {},
                Err(e) => {
                    return Err(e);
                },
            }
            let rr = match create_matchit_router(route, services, groups) {
                Ok(rr) => rr,
                Err(e) => {
                    return Err(e);
                },
            };
            let ghost pre = routers@;
            routers.insert(route.name.clone(), rr);
            proof {
                assert forall|n: Seq<char>| #[trigger] routers@.contains_key(n)
                    <==> exists|x: int| 0 <= x < i + 1 && routes@[x].name@ == n by {
                    if n == routes@[i as int].name@ {
                        assert(0 <= i < i + 1 && routes@[i as int].name@ == n);
                    } else if pre.contains_key(n) {
                        let x = choose|x: int| 0 <= x < i && routes@[x].name@ == n;
                        assert(0 <= x < i + 1 && routes@[x].name@ == n);
                    }
                }
            }
            i = i + 1;
        }
        Ok(RouteTable { store_route, routers })
    }

    /// The service of a route and the parameters bound, for a method and path, in
    /// the route of the given name.
    pub fn find_matching_route(&self, route_name: &str, path: &str, method: &str) -> (r: Result<(&RouteService, Vec<(String, String)>), NylonError>)
        ensures
            !self.routers@.contains_key(route_name@) ==> (r matches Err(NylonError::RouteNotFound(m)) && m@ == route_missing_message()),
            self.routers@.contains_key(route_name@) ==> match spec_route_match(self.routers@[route_name@], path@, method@) {
                None => r matches Err(NylonError::RouteNotFound(m)) && m@ == no_match_message(method@, path@),
                Some((v, ps)) => r matches Ok((s, ps2)) && v < self.routers@[route_name@].targets().len()
                    && *s == self.routers@[route_name@].targets()[v as int] && text_pairs(ps2@) == ps,
            },
    {
        proof {
            reveal_strlit("Route map missing for given name");
            reveal_strlit("/");
            reveal_strlit("No route matched for method: ");
            reveal_strlit(", path: ");
        }
        let rr = match self.routers.get(route_name) {
            Some(rr) => rr,
            None => {
                return Err(NylonError::RouteNotFound(String::from_str("Route map missing for given name")));
            },
        };
        match rr.at(path) {
            Some(found) => Ok(found),
            None => {
                let with_method = String::from_str("/").concat(method).concat(path);
                match rr.at(with_method.as_str()) {
                    Some(found) => Ok(found),
                    None => Err(NylonError::RouteNotFound(
                        String::from_str("No route matched for method: ").concat(method).concat(", path: ").concat(path))),
                }
            },
        }
    }

    /// Finds the route of a request: by the value of the selector header when a
    /// route is registered for it, else by host; then the service its method and
    /// path reach.
    pub fn find_route(&self, header_value: Option<&str>, host: &str, path: &str, method: &str)
        -> (r: Result<(&RouteService, Vec<(String, String)>), NylonError>)
        ensures
            ({
                let by_header = match header_value {
                    Some(v) => if self.store_route@.contains_key("header-"@ + v@) { Some(self.store_route@["header-"@ + v@]@) } else { None },
                    None => None,
                };
                let by_host = if self.store_route@.contains_key("host-"@ + host@) { Some(self.store_route@["host-"@ + host@]@) } else { None };
                let chosen = match by_header { Some(n) => Some(n), None => by_host };
                match chosen {
                    None => r matches Err(NylonError::RouteNotFound(m)) && m@ == no_route_message(host@, method@, path@),
                    Some(name) => {
                        &&& !self.routers@.contains_key(name) ==> (r matches Err(NylonError::RouteNotFound(m)) && m@ == route_missing_message())
                        &&& self.routers@.contains_key(name) ==> match spec_route_match(self.routers@[name], path@, method@) {
                            None => r matches Err(NylonError::RouteNotFound(m)) && m@ == no_match_message(method@, path@),
                            Some((v, ps)) => r matches Ok((s, ps2)) && v < self.routers@[name].targets().len()
                                && *s == self.routers@[name].targets()[v as int] && text_pairs(ps2@) == ps,
                        }
                    },
                }
            }),
    {
        proof {
            reveal_strlit("header-");
            reveal_strlit("host-");
            reveal_strlit("No route matched for host: ");
            reveal_strlit(", method: ");
            reveal_strlit(", path: ");
        }
        if let Some(v) = header_value {
            let key = String::from_str("header-").concat(v);
            if let Some(name) = self.store_route.get(key.as_str()) {
                return self.find_matching_route(name.as_str(), path, method);
            }
        }
        let key = String::from_str("host-").concat(host);
        if let Some(name) = self.store_route.get(key.as_str()) {
            return self.find_matching_route(name.as_str(), path, method);
        }
        Err(NylonError::RouteNotFound(
            String::from_str("No route matched for host: ").concat(host).concat(", method: ").concat(method)
                .concat(", path: ").concat(path)))
    }
}

/// The host of a `Host` header: what comes before the first `:`.
pub open spec fn spec_host_part(h: Seq<char>) -> Seq<char> {
    split_pieces(h, ":"@, 0)[0]
}

/// The host of a `Host` header, without its port.
pub fn host_without_port(header: &str) -> (r: String)
    ensures
        r@ == spec_host_part(header@),
{
    proof { reveal_strlit(":"); }
    let parts = split_text(header, ":");
    proof { lemma_split_nonempty(header@, ":"@); }
    parts[0].clone()
}

/// Splitting yields at least one piece.
pub proof fn lemma_split_nonempty(s: Seq<char>, m: Seq<char>)
    requires
        m.len() > 0,
    ensures
        split_pieces(s, m, 0).len() > 0,
{
    crate::text::lemma_first_occurrence_bounds(s, m, 0);
}

} // verus!
