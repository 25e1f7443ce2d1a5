//! A JSON document model and the path updates applied to plugin payloads.
use vstd::prelude::*;
use vstd::string::*;
use crate::types::template::{PathPart, PathPartModel, path_models, spec_parse_path, parse_path};
use crate::types::eval::{
    TemplateContext, has_dynamic, render_outcome, render_template_string, spec_render,
};
use crate::types::template::{Expr, ExprModel};
use crate::text::{decimal_string, usize_to_decimal, str_chars, string_from_chars};

verus! {

/// A JSON value. Numbers keep their textual form.
#[derive(Debug, PartialEq)]
pub enum JsonValue {
    Null,
    Bool(bool),
    Number(String),
    Str(String),
    Array(Vec<JsonValue>),
    Object(Vec<(String, JsonValue)>),
}

/// Mathematical form of a JSON value; objects are ordered entry lists.
pub enum JsonModel {
    Null,
    Bool(bool),
    Number(Seq<char>),
    Str(Seq<char>),
    Array(Seq<JsonModel>),
    Object(Seq<(Seq<char>, JsonModel)>),
}

impl JsonValue {
    pub open spec fn model(self) -> JsonModel
        decreases self,
    {
        match self {
            JsonValue::Null => JsonModel::Null,
            JsonValue::Bool(b) => JsonModel::Bool(b),
            JsonValue::Number(n) => JsonModel::Number(n@),
            JsonValue::Str(s) => JsonModel::Str(s@),
            JsonValue::Array(a) => {
                proof {
                    assert(decreases_to!(self => a));
                }
                JsonModel::Array(JsonValue::models(a@))
            },
            JsonValue::Object(m) => {
                proof {
                    assert(decreases_to!(self => m));
                }
                JsonModel::Object(JsonValue::entry_models(m@))
            },
        }
    }

    pub open spec fn models(s: Seq<JsonValue>) -> Seq<JsonModel>
        decreases s,
    {
        if s.len() == 0 {
            Seq::empty()
        } else {
            JsonValue::models(s.drop_last()).push(s.last().model())
        }
    }

    pub open spec fn entry_models(s: Seq<(String, JsonValue)>) -> Seq<(Seq<char>, JsonModel)>
        decreases s,
    {
        if s.len() == 0 {
            Seq::empty()
        } else {
            proof {
                assert(decreases_to!(s => s.last()));
            }
            JsonValue::entry_models(s.drop_last()).push((s.last().0@, s.last().1.model()))
        }
    }
}

pub proof fn lemma_models_index(s: Seq<JsonValue>)
    ensures
        JsonValue::models(s).len() == s.len(),
        forall|k: int| 0 <= k < s.len() ==> #[trigger] JsonValue::models(s)[k] == s[k].model(),
    decreases s.len(),
{
    if s.len() > 0 {
        lemma_models_index(s.drop_last());
    }
}

pub proof fn lemma_entry_models_index(s: Seq<(String, JsonValue)>)
    ensures
        JsonValue::entry_models(s).len() == s.len(),
        forall|k: int| 0 <= k < s.len() ==> #[trigger] JsonValue::entry_models(s)[k] == (s[k].0@, s[k].1.model()),
    decreases s.len(),
{
    if s.len() > 0 {
        lemma_entry_models_index(s.drop_last());
    }
}

pub proof fn lemma_models_ext(a: Seq<JsonValue>, b: Seq<JsonModel>)
    requires
        a.len() == b.len(),
        forall|k: int| 0 <= k < a.len() ==> #[trigger] a[k].model() == b[k],
    ensures
        JsonValue::models(a) == b,
{
    lemma_models_index(a);
    assert(JsonValue::models(a) =~= b);
}

pub proof fn lemma_entry_models_ext(a: Seq<(String, JsonValue)>, b: Seq<(Seq<char>, JsonModel)>)
    requires
        a.len() == b.len(),
        forall|k: int| 0 <= k < a.len() ==> (#[trigger] a[k]).0@ == b[k].0 && a[k].1.model() == b[k].1,
    ensures
        JsonValue::entry_models(a) == b,
{
    lemma_entry_models_index(a);
    assert(JsonValue::entry_models(a) =~= b);
}

// ---------------------------------------------------------------------------
// Object entries
// ---------------------------------------------------------------------------

/// Index of the entry named `k`, if any.
pub open spec fn obj_find(m: Seq<(Seq<char>, JsonModel)>, k: Seq<char>) -> Option<int>
    decreases m.len(),
{
    if m.len() == 0 {
        None
    } else if m.last().0 == k {
        Some(m.len() - 1)
    } else {
        obj_find(m.drop_last(), k)
    }
}

/// Sets entry `k` to `v`: replaces the value of an existing entry, or appends one.
pub open spec fn obj_insert(m: Seq<(Seq<char>, JsonModel)>, k: Seq<char>, v: JsonModel) -> Seq<(Seq<char>, JsonModel)> {
    match obj_find(m, k) {
        Some(j) => m.update(j, (k, v)),
        None => m.push((k, v)),
    }
}

pub proof fn lemma_obj_find(m: Seq<(Seq<char>, JsonModel)>, k: Seq<char>)
    ensures
        match obj_find(m, k) {
            Some(j) => 0 <= j < m.len() && m[j].0 == k && forall|x: int| j < x < m.len() ==> m[x].0 != k,
            None => forall|x: int| 0 <= x < m.len() ==> m[x].0 != k,
        },
    decreases m.len(),
{
    if m.len() > 0 {
        let d = m.drop_last();
        lemma_obj_find(d, k);
        assert(forall|x: int| 0 <= x < d.len() ==> d[x] == m[x]);
    }
}

/// Position of the last entry named `key`.
fn find_entry(m: &Vec<(String, JsonValue)>, key: &String) -> (r: Option<usize>)
    ensures
        match r {
            Some(j) => obj_find(JsonValue::entry_models(m@), key@) == Some(j as int),
            None => obj_find(JsonValue::entry_models(m@), key@).is_none(),
        },
{
    let ghost em = JsonValue::entry_models(m@);
    proof { lemma_entry_models_index(m@); }
    let mut i = m.len();
    assert(em.subrange(0, i as int) =~= em);
    while i > 0
        invariant
            i <= m.len(),
            em == JsonValue::entry_models(m@),
            em.len() == m.len(),
            forall|k: int| 0 <= k < m.len() ==> #[trigger] em[k] == (m@[k].0@, m@[k].1.model()),
            obj_find(em, key@) == obj_find(em.subrange(0, i as int), key@),
        decreases i,
    {
        let ghost sub = em.subrange(0, i as int);
        assert(sub.drop_last() =~= em.subrange(0, i - 1));
        if m[i - 1].0 == *key {
            return Some(i - 1);
        }
        i = i - 1;
    }
    assert(em.subrange(0, 0) =~= Seq::<(Seq<char>, JsonModel)>::empty());
    None
}

// ---------------------------------------------------------------------------
// Setting a value at a path
// ---------------------------------------------------------------------------

pub open spec fn has_index_part(parts: Seq<PathPartModel>) -> bool {
    exists|k: int| 0 <= k < parts.len() && parts[k] is Index
}

/// The value after setting `parts[i..]` to `nv` under `v`.
/// Keys descend into objects (a missing key gets an empty array when the path
/// holds an index anywhere, an empty object otherwise); indexes descend into
/// arrays, which grow with nulls to reach the index. A step that meets a value
/// of another kind stops there.
pub open spec fn sp_set(v: JsonModel, parts: Seq<PathPartModel>, i: int, has_index: bool, nv: JsonModel) -> JsonModel
    decreases parts.len() - i,
{
    if i < 0 || i >= parts.len() {
        v
    } else {
        let last = i == parts.len() - 1;
        match parts[i] {
            PathPartModel::Key(k) => match v {
                JsonModel::Object(m) => {
                    if last {
                        JsonModel::Object(obj_insert(m, k, nv))
                    } else {
                        let child = match obj_find(m, k) {
                            Some(j) => m[j].1,
                            None => if has_index { JsonModel::Array(Seq::empty()) } else { JsonModel::Object(Seq::empty()) },
                        };
                        JsonModel::Object(obj_insert(m, k, sp_set(child, parts, i + 1, has_index, nv)))
                    }
                },
                _ => v,
            },
            PathPartModel::Index(n) => match v {
                JsonModel::Array(a) => {
                    let a1 = if n >= a.len() { a + Seq::new((n + 1 - a.len()) as nat, |x: int| JsonModel::Null) } else { a };
                    if last {
                        JsonModel::Array(a1.update(n as int, nv))
                    } else {
                        JsonModel::Array(a1.update(n as int, sp_set(a1[n as int], parts, i + 1, has_index, nv)))
                    }
                },
                _ => v,
            },
        }
    }
}

/// The value after setting the value at `path` to `nv`.
pub open spec fn spec_set_json_value(v: JsonModel, path: Seq<char>, nv: JsonModel) -> JsonModel {
    let parts = spec_parse_path(path);
    sp_set(v, parts, 0, has_index_part(parts), nv)
}

/// Indexes in the path leave room to grow an array to them.
pub open spec fn path_indexes_fit(parts: Seq<PathPartModel>) -> bool {
    forall|k: int| 0 <= k < parts.len() && (#[trigger] parts[k]) is Index ==> parts[k]->Index_0 < usize::MAX
}

fn set_at(v: JsonValue, parts: &Vec<PathPart>, i: usize, has_index: bool, nv: JsonValue) -> (r: JsonValue)
    requires
        i <= parts.len(),
        path_indexes_fit(path_models(parts@)),
    ensures
        r.model() == sp_set(v.model(), path_models(parts@), i as int, has_index, nv.model()),
    decreases parts.len() - i,
{
    let ghost pm = path_models(parts@);
    if i >= parts.len() {
        return v;
    }
    let last = i == parts.len() - 1;
    assert(pm[i as int] == parts@[i as int].model());
    match &parts[i] {
        PathPart::Key(k) => {
            match v {
                JsonValue::Object(mut m) => {
                    let ghost em = JsonValue::entry_models(m@);
                    proof {
                        lemma_entry_models_index(m@);
                        lemma_obj_find(em, k@);
                    }
                    let found = find_entry(&m, k);
                    let child_new = if last {
                        nv
                    } else {
                        let child = match found {
                            Some(j) => {
                                let (key0, c) = m.remove(j);
                                m.insert(j, (key0, JsonValue::Null));
                                c
                            },
                            None => if has_index { JsonValue::Array(Vec::new()) } else { JsonValue::Object(Vec::new()) },
                        };
                        proof {
                            assert(child.model() == match obj_find(em, k@) {
                                Some(j) => em[j].1,
                                None => if has_index { JsonModel::Array(Seq::empty()) } else { JsonModel::Object(Seq::empty()) },
                            }) by {
                                if has_index {
                                    assert(JsonValue::models(Seq::<JsonValue>::empty()) =~= Seq::<JsonModel>::empty());
                                } else {
                                    assert(JsonValue::entry_models(Seq::<(String, JsonValue)>::empty()) =~= Seq::<(Seq<char>, JsonModel)>::empty());
                                }
                            }
                        }
                        set_at(child, parts, i + 1, has_index, nv)
                    };
                    let ghost cm = child_new.model();
                    match found {
                        Some(j) => {
                            m.set(j, (k.clone(), child_new));
                        },
                        None => {
                            m.push((k.clone(), child_new));
                        },
                    }
                    proof {
                        let target = obj_insert(em, k@, cm);
                        assert forall|x: int| 0 <= x < m@.len() implies (#[trigger] m@[x]).0@ == target[x].0 && m@[x].1.model() == target[x].1 by {
                        }
                        lemma_entry_models_ext(m@, target);
                    }
                    JsonValue::Object(m)
                },
                other => other,
            }
        },
        PathPart::Index(n) => {
            let n = *n;
            match v {
                JsonValue::Array(mut a) => {
                    let ghost am = JsonValue::models(a@);
                    let ghost a1 = if n >= am.len() { am + Seq::new((n + 1 - am.len()) as nat, |x: int| JsonModel::Null) } else { am };
                    proof { lemma_models_index(a@); }
                    while a.len() <= n
                        invariant
                            am.len() <= a@.len(),
                            n < usize::MAX,
                            a@.len() <= n + 1 || a@.len() == am.len(),
                            forall|x: int| 0 <= x < am.len() ==> #[trigger] a@[x].model() == am[x],
                            forall|x: int| am.len() <= x < a@.len() ==> #[trigger] a@[x].model() == JsonModel::Null,
                        decreases n + 1 - a.len(),
                    {
                        a.push(JsonValue::Null);
                    }
                    assert(a@.len() == a1.len());
                    assert forall|x: int| 0 <= x < a@.len() implies #[trigger] a@[x].model() == a1[x] by {}
                    let new_child = if last {
                        nv
                    } else {
                        let c = a.remove(n);
                        a.insert(n, JsonValue::Null);
                        set_at(c, parts, i + 1, has_index, nv)
                    };
                    let ghost ncm = new_child.model();
                    a.set(n, new_child);
                    proof {
                        let target = a1.update(n as int, ncm);
                        assert forall|x: int| 0 <= x < a@.len() implies #[trigger] a@[x].model() == target[x] by {}
                        lemma_models_ext(a@, target);
                    }
                    JsonValue::Array(a)
                },
                other => other,
            }
        },
    }
}

fn contains_index(parts: &Vec<PathPart>) -> (b: bool)
    ensures
        b == has_index_part(path_models(parts@)),
{
    let mut i: usize = 0;
    while i < parts.len()
        invariant
            i <= parts.len(),
            forall|k: int| 0 <= k < i ==> !(path_models(parts@)[k] is Index),
        decreases parts.len() - i,
    {
        match &parts[i] {
            PathPart::Index(_) => {
                assert(path_models(parts@)[i as int] is Index);
                return true;
            },
            _ => {},
        }
        i = i + 1;
    }
    false
}

/// Sets the value at `path` (such as `a.b[2].c`) to `new_val`.
pub fn set_json_value(root: &mut JsonValue, path: &str, new_val: JsonValue)
    requires
        path_indexes_fit(spec_parse_path(path@)),
    ensures
        final(root).model() == spec_set_json_value(old(root).model(), path@, new_val.model()),
{
    let parts = parse_path(path);
    let has_index = contains_index(&parts);
    let mut current = JsonValue::Null;
    std::mem::swap(&mut current, root);
    *root = set_at(current, &parts, 0, has_index, new_val);
}

// ---------------------------------------------------------------------------
// Walking the leaves of a document
// ---------------------------------------------------------------------------

/// Path of the entry `k` under `path`: `path.k`, or `k` at the top.
pub open spec fn join_key(path: Seq<char>, k: Seq<char>) -> Seq<char> {
    if path.len() == 0 { k } else { path + "."@ + k }
}

/// Path of the item `i` under `path`: `path[i]`.
pub open spec fn join_index(path: Seq<char>, i: nat) -> Seq<char> {
    path + "["@ + decimal_string(i) + "]"@
}

/// The scalar leaves under `v`, each with its path, in document order.
pub open spec fn sp_walk(v: JsonModel, path: Seq<char>) -> Seq<(Seq<char>, JsonModel)>
    decreases v, 0int,
{
    match v {
        JsonModel::Object(m) => sp_walk_entries(m, 0, path),
        JsonModel::Array(a) => sp_walk_items(a, 0, path),
        _ => seq![(path, v)],
    }
}

pub open spec fn sp_walk_entries(m: Seq<(Seq<char>, JsonModel)>, i: int, path: Seq<char>) -> Seq<(Seq<char>, JsonModel)>
    decreases m, m.len() - i,
{
    if 0 <= i < m.len() {
        sp_walk(m[i].1, join_key(path, m[i].0)) + sp_walk_entries(m, i + 1, path)
    } else {
        Seq::empty()
    }
}

pub open spec fn sp_walk_items(a: Seq<JsonModel>, i: int, path: Seq<char>) -> Seq<(Seq<char>, JsonModel)>
    decreases a, a.len() - i,
{
    if 0 <= i < a.len() {
        sp_walk(a[i], join_index(path, i as nat)) + sp_walk_items(a, i + 1, path)
    } else {
        Seq::empty()
    }
}

pub open spec fn leaf_models(s: Seq<(String, JsonValue)>) -> Seq<(Seq<char>, JsonModel)> {
    s.map_values(|e: (String, JsonValue)| (e.0@, e.1.model()))
}

fn copy_scalar(v: &JsonValue) -> (r: JsonValue)
    requires
        !(v is Array),
        !(v is Object),
    ensures
        r.model() == v.model(),
{
    match v {
        JsonValue::Null => JsonValue::Null,
        JsonValue::Bool(b) => JsonValue::Bool(*b),
        JsonValue::Number(n) => JsonValue::Number(n.clone()),
        JsonValue::Str(s) => JsonValue::Str(s.clone()),
        _ => JsonValue::Null,
    }
}

fn walk_into(value: &JsonValue, path: String, out: &mut Vec<(String, JsonValue)>)
    ensures
        leaf_models(final(out)@) == leaf_models(old(out)@) + sp_walk(value.model(), path@),
    decreases value,
{
    match value {
        JsonValue::Object(m) => {
            let ghost em = JsonValue::entry_models(m@);
            let ghost out0 = leaf_models(out@);
            proof { lemma_entry_models_index(m@); }
            let mut i: usize = 0;
            assert(leaf_models(out@) + sp_walk_entries(em, 0, path@) =~= out0 + sp_walk_entries(em, 0, path@));
            #[verifier::loop_isolation(false)]
            while i < m.len()
                invariant
                    i <= m.len(),
                    leaf_models(out@) + sp_walk_entries(em, i as int, path@) == out0 + sp_walk_entries(em, 0, path@),
                decreases m.len() - i,
            {
                let child_path = if path.as_str().is_empty() {
                    m[i].0.clone()
                } else {
                    let dot = String::from_str(".");
                    let p = path.clone().concat(dot.as_str());
                    p.concat(m[i].0.as_str())
                };
                let ghost before = leaf_models(out@);
                walk_into(&m[i].1, child_path, out);
                proof {
                    assert(child_path@ == join_key(path@, em[i as int].0));
                    assert(leaf_models(out@) + sp_walk_entries(em, i + 1, path@) =~= before + sp_walk_entries(em, i as int, path@));
                }
                i = i + 1;
            }
            assert(leaf_models(out@) + sp_walk_entries(em, i as int, path@) =~= leaf_models(out@));
        },
        JsonValue::Array(a) => {
            let ghost am = JsonValue::models(a@);
            let ghost out0 = leaf_models(out@);
            proof { lemma_models_index(a@); }
            let mut i: usize = 0;
            #[verifier::loop_isolation(false)]
            while i < a.len()
                invariant
                    i <= a.len(),
                    leaf_models(out@) + sp_walk_items(am, i as int, path@) == out0 + sp_walk_items(am, 0, path@),
                decreases a.len() - i,
            {
                let open_b = String::from_str("[");
                let close_b = String::from_str("]");
                let idx = usize_to_decimal(i);
                let child_path = path.clone().concat(open_b.as_str()).concat(idx.as_str()).concat(close_b.as_str());
                let ghost before = leaf_models(out@);
                walk_into(&a[i], child_path, out);
                proof {
                    assert(child_path@ =~= join_index(path@, i as nat));
                    assert(leaf_models(out@) + sp_walk_items(am, i + 1, path@) =~= before + sp_walk_items(am, i as int, path@));
                }
                i = i + 1;
            }
            assert(leaf_models(out@) + sp_walk_items(am, i as int, path@) =~= leaf_models(out@));
        },
        _ => {
            let leaf = copy_scalar(value);
            let ghost before = out@;
            out.push((path, leaf));
            assert(leaf_models(out@) =~= leaf_models(before) + sp_walk(value.model(), path@));
        },
    }
}

/// The scalar leaves of a document, each with its path (`a.b[0].c`), in document order.
pub fn walk_json(value: &JsonValue, path: String) -> (r: Vec<(String, JsonValue)>)
    ensures
        leaf_models(r@) == sp_walk(value.model(), path@),
{
    let mut out: Vec<(String, JsonValue)> = Vec::new();
    assert(leaf_models(out@) =~= Seq::<(Seq<char>, JsonModel)>::empty());
    walk_into(value, path, &mut out);
    assert(leaf_models(out@) =~= sp_walk(value.model(), path@));
    out
}


impl JsonValue {
    /// A copy of the whole document.
    pub fn deep_copy(&self) -> (r: JsonValue)
        ensures
            r.model() == self.model(),
        decreases self,
    {
        match self {
            JsonValue::Array(a) => {
                proof { lemma_models_index(a@); }
                let mut items: Vec<JsonValue> = Vec::new();
                let mut i: usize = 0;
                #[verifier::loop_isolation(false)]
                while i < a.len()
                    invariant
                        i <= a.len(),
                        JsonValue::models(items@) == JsonValue::models(a@).subrange(0, i as int),
                    decreases a.len() - i,
                {
                    let c = a[i].deep_copy();
                    let ghost before = items@;
                    items.push(c);
                    proof {
                        assert(items@.drop_last() =~= before);
                        assert(JsonValue::models(items@) =~= JsonValue::models(a@).subrange(0, i + 1));
                    }
                    i = i + 1;
                }
                assert(JsonValue::models(a@).subrange(0, i as int) =~= JsonValue::models(a@));
                JsonValue::Array(items)
            },
            JsonValue::Object(m) => {
                proof { lemma_entry_models_index(m@); }
                let mut entries: Vec<(String, JsonValue)> = Vec::new();
                let mut i: usize = 0;
                #[verifier::loop_isolation(false)]
                while i < m.len()
                    invariant
                        i <= m.len(),
                        JsonValue::entry_models(entries@) == JsonValue::entry_models(m@).subrange(0, i as int),
                    decreases m.len() - i,
                {
                    let c = m[i].1.deep_copy();
                    let k = m[i].0.clone();
                    let ghost before = entries@;
                    entries.push((k, c));
                    proof {
                        assert(entries@.drop_last() =~= before);
                        assert(JsonValue::entry_models(entries@) =~= JsonValue::entry_models(m@).subrange(0, i + 1));
                    }
                    i = i + 1;
                }
                assert(JsonValue::entry_models(m@).subrange(0, i as int) =~= JsonValue::entry_models(m@));
                JsonValue::Object(entries)
            },
            _ => copy_scalar(self),
        }
    }
}


// ---------------------------------------------------------------------------
// Compact JSON text
// ---------------------------------------------------------------------------

pub open spec fn hex_digit(d: nat) -> char {
    if d < 10 { (('0' as nat) + d) as char } else { (('a' as nat) + d - 10) as char }
}

/// How a character is written inside a JSON string.
pub open spec fn json_escape(c: char) -> Seq<char> {
    if c == '"' { seq!['\\', '"'] }
    else if c == '\\' { seq!['\\', '\\'] }
    else if c == '\n' { seq!['\\', 'n'] }
    else if c == '\r' { seq!['\\', 'r'] }
    else if c == '\t' { seq!['\\', 't'] }
    else if c == '\u{8}' { seq!['\\', 'b'] }
    else if c == '\u{c}' { seq!['\\', 'f'] }
    else if (c as nat) < 0x20 { seq!['\\', 'u', '0', '0', hex_digit((c as nat) / 16), hex_digit((c as nat) % 16)] }
    else { seq![c] }
}

pub open spec fn json_escaped(s: Seq<char>) -> Seq<char>
    decreases s.len(),
{
    if s.len() == 0 { Seq::empty() } else { json_escaped(s.drop_last()) + json_escape(s.last()) }
}

/// The value of a lowercase hexadecimal digit.
pub open spec fn hex_value(c: char) -> Option<nat> {
    if '0' <= c <= '9' {
        Some((c as nat - '0' as nat) as nat)
    } else if 'a' <= c <= 'f' {
        Some((c as nat - 'a' as nat + 10) as nat)
    } else {
        None
    }
}

/// The character a JSON escape `\e` stands for, for the one-letter escapes.
pub open spec fn short_escape(e: char) -> Option<char> {
    if e == '"' { Some('"') }
    else if e == '\\' { Some('\\') }
    else if e == 'n' { Some('\n') }
    else if e == 'r' { Some('\r') }
    else if e == 't' { Some('\t') }
    else if e == 'b' { Some('\u{8}') }
    else if e == 'f' { Some('\u{c}') }
    else { None }
}

/// `s` in front of what `rest` decodes to, when it decodes.
pub open spec fn prepend(s: Seq<char>, rest: Option<Seq<char>>) -> Option<Seq<char>> {
    match rest {
        Some(r) => Some(s + r),
        None => None,
    }
}

/// Reads the inside of a JSON string literal back into its characters: a
/// backslash starts an escape (one letter, or `u` and four lowercase hex digits
/// of a character below U+0100); a quote or a control character outside an
/// escape is not allowed.
pub open spec fn json_unescape(t: Seq<char>) -> Option<Seq<char>>
    decreases t.len(),
{
    if t.len() == 0 {
        Some(Seq::empty())
    } else if t[0] == '\\' {
        if t.len() < 2 {
            None
        } else if t[1] == 'u' {
            if t.len() < 6 || t[2] != '0' || t[3] != '0' {
                None
            } else {
                match (hex_value(t[4]), hex_value(t[5])) {
                    (Some(h), Some(l)) => prepend(seq![(h * 16 + l) as char], json_unescape(t.subrange(6, t.len() as int))),
                    _ => None,
                }
            }
        } else {
            match short_escape(t[1]) {
                Some(c) => prepend(seq![c], json_unescape(t.subrange(2, t.len() as int))),
                None => None,
            }
        }
    } else if t[0] == '"' || (t[0] as nat) < 0x20 {
        None
    } else {
        prepend(seq![t[0]], json_unescape(t.drop_first()))
    }
}

proof fn lemma_escape_char_then(c: char, rest: Seq<char>)
    ensures
        json_unescape(json_escape(c) + rest) == prepend(seq![c], json_unescape(rest)),
{
    let t = json_escape(c) + rest;
    if c == '"' || c == '\\' || c == '\n' || c == '\r' || c == '\t' || c == '\u{8}' || c == '\u{c}' {
        assert(t.subrange(2, t.len() as int) =~= rest);
    } else if (c as nat) < 0x20 {
        let n = c as nat;
        assert(t.subrange(6, t.len() as int) =~= rest);
        assert(hex_value(hex_digit(n / 16)) == Some(n / 16));
        assert(hex_value(hex_digit(n % 16)) == Some(n % 16));
        assert((n / 16) * 16 + n % 16 == n);
        assert(((n / 16) * 16 + n % 16) as char == c);
    } else {
        assert(t.drop_first() =~= rest);
    }
}

proof fn lemma_escaped_front(s: Seq<char>)
    requires
        s.len() > 0,
    ensures
        json_escaped(s) == json_escape(s[0]) + json_escaped(s.drop_first()),
    decreases s.len(),
{
    if s.len() > 1 {
        lemma_escaped_front(s.drop_last());
        assert(s.drop_last().drop_first() =~= s.drop_first().drop_last());
        assert(s.drop_first().last() == s.last());
        assert(s.drop_last()[0] == s[0]);
        let a = json_escape(s[0]);
        let mid = json_escaped(s.drop_first().drop_last());
        let z = json_escape(s.last());
        assert(json_escaped(s) == json_escaped(s.drop_last()) + z);
        assert(json_escaped(s.drop_last()) == a + mid);
        assert(json_escaped(s.drop_first()) == mid + z);
        assert((a + mid) + z =~= a + (mid + z));
    } else {
        assert(s.drop_first().len() == 0);
        assert(s.drop_last().len() == 0);
        assert(json_escaped(s.drop_last()) == Seq::<char>::empty());
        assert(json_escaped(s.drop_first()) == Seq::<char>::empty());
        assert(s.last() == s[0]);
        assert(json_escaped(s) =~= json_escape(s[0]) + json_escaped(s.drop_first()));
    }
}

proof fn lemma_unescape_escaped_then(s: Seq<char>, rest: Seq<char>)
    ensures
        json_unescape(json_escaped(s) + rest) == prepend(s, json_unescape(rest)),
    decreases s.len(),
{
    if s.len() == 0 {
        assert(json_escaped(s) + rest =~= rest);
        match json_unescape(rest) {
            Some(r) => { assert(s + r =~= r); },
            None => {},
        }
    } else {
        lemma_escaped_front(s);
        let tail = s.drop_first();
        lemma_unescape_escaped_then(tail, rest);
        assert(json_escaped(s) + rest =~= json_escape(s[0]) + (json_escaped(tail) + rest));
        lemma_escape_char_then(s[0], json_escaped(tail) + rest);
        match json_unescape(rest) {
            Some(r) => { assert(seq![s[0]] + (tail + r) =~= s + r); },
            None => {},
        }
    }
}

/// Escaping is undone by reading back: the inside of a string's literal reads
/// back as exactly that string (no raw quote or control character is left in it).
pub proof fn law_json_string_round_trip(s: Seq<char>)
    ensures
        json_unescape(json_escaped(s)) == Some(s),
        json_quote(s) == seq!['"'] + json_escaped(s) + seq!['"'],
{
    lemma_unescape_escaped_then(s, Seq::empty());
    assert(json_escaped(s) + Seq::<char>::empty() =~= json_escaped(s));
    assert(s + Seq::<char>::empty() =~= s);
}

/// A JSON string literal.
pub open spec fn json_quote(s: Seq<char>) -> Seq<char> {
    seq!['"'] + json_escaped(s) + seq!['"']
}

/// The compact JSON text of a value (no spaces), as `serde_json` writes it.
pub open spec fn json_text(v: JsonModel) -> Seq<char>
    decreases v, 0int,
{
    match v {
        JsonModel::Null => "null"@,
        JsonModel::Bool(b) => if b { "true"@ } else { "false"@ },
        JsonModel::Number(n) => n,
        JsonModel::Str(t) => json_quote(t),
        JsonModel::Array(a) => seq!['['] + json_items(a, 0) + seq![']'],
        JsonModel::Object(m) => seq!['{'] + json_entries(m, 0) + seq!['}'],
    }
}

pub open spec fn json_items(a: Seq<JsonModel>, i: int) -> Seq<char>
    decreases a, a.len() - i,
{
    if 0 <= i < a.len() {
        (if i > 0 { seq![','] } else { Seq::empty() }) + json_text(a[i]) + json_items(a, i + 1)
    } else {
        Seq::empty()
    }
}

pub open spec fn json_entries(m: Seq<(Seq<char>, JsonModel)>, i: int) -> Seq<char>
    decreases m, m.len() - i,
{
    if 0 <= i < m.len() {
        (if i > 0 { seq![','] } else { Seq::empty() }) + json_quote(m[i].0) + seq![':'] + json_text(m[i].1) + json_entries(m, i + 1)
    } else {
        Seq::empty()
    }
}

/// `parts` with `sep` between each two.
pub open spec fn join_with(parts: Seq<Seq<char>>, sep: char) -> Seq<char>
    decreases parts.len(),
{
    if parts.len() == 0 {
        Seq::empty()
    } else if parts.len() == 1 {
        parts[0]
    } else {
        join_with(parts.drop_last(), sep) + seq![sep] + parts.last()
    }
}

/// The text of each entry of an object: its key quoted, `:`, its value's text.
pub open spec fn entry_texts(m: Seq<(Seq<char>, JsonModel)>) -> Seq<Seq<char>> {
    Seq::new(m.len(), |k: int| json_quote(m[k].0) + seq![':'] + json_text(m[k].1))
}

/// The text of each item of an array.
pub open spec fn item_texts(a: Seq<JsonModel>) -> Seq<Seq<char>> {
    Seq::new(a.len(), |k: int| json_text(a[k]))
}

proof fn lemma_entries_prefix(m: Seq<(Seq<char>, JsonModel)>, i: int)
    requires
        1 <= i <= m.len(),
    ensures
        json_entries(m, 0) == join_with(entry_texts(m).subrange(0, i), ',') + json_entries(m, i),
    decreases i,
{
    let parts = entry_texts(m);
    if i == 1 {
        assert(parts.subrange(0, 1).len() == 1);
        assert(json_entries(m, 0) =~= parts[0] + json_entries(m, 1));
    } else {
        lemma_entries_prefix(m, i - 1);
        let p = parts.subrange(0, i);
        assert(p.drop_last() =~= parts.subrange(0, i - 1));
        assert(p.last() == parts[i - 1]);
        assert(json_entries(m, i - 1) =~= seq![','] + parts[i - 1] + json_entries(m, i));
        assert(json_entries(m, 0) =~= join_with(p, ',') + json_entries(m, i));
    }
}

proof fn lemma_items_prefix(a: Seq<JsonModel>, i: int)
    requires
        1 <= i <= a.len(),
    ensures
        json_items(a, 0) == join_with(item_texts(a).subrange(0, i), ',') + json_items(a, i),
    decreases i,
{
    let parts = item_texts(a);
    if i == 1 {
        assert(parts.subrange(0, 1).len() == 1);
        assert(json_items(a, 0) =~= parts[0] + json_items(a, 1));
    } else {
        lemma_items_prefix(a, i - 1);
        let p = parts.subrange(0, i);
        assert(p.drop_last() =~= parts.subrange(0, i - 1));
        assert(p.last() == parts[i - 1]);
        assert(json_items(a, i - 1) =~= seq![','] + parts[i - 1] + json_items(a, i));
        assert(json_items(a, 0) =~= join_with(p, ',') + json_items(a, i));
    }
}

/// The text of an object is `{`, the texts of its entries (key quoted, `:`,
/// value) in order with a `,` between each two, and `}`; the text of an array
/// is `[`, its items' texts in order with a `,` between each two, and `]`.
pub proof fn law_json_containers_comma_separated(v: JsonModel)
    ensures
        v matches JsonModel::Object(m) ==> json_text(v) == seq!['{'] + join_with(entry_texts(m), ',') + seq!['}'],
        v matches JsonModel::Array(a) ==> json_text(v) == seq!['['] + join_with(item_texts(a), ',') + seq![']'],
{
    match v {
        JsonModel::Object(m) => {
            if m.len() > 0 {
                lemma_entries_prefix(m, m.len() as int);
                assert(entry_texts(m).subrange(0, m.len() as int) =~= entry_texts(m));
                assert(json_entries(m, m.len() as int) == Seq::<char>::empty());
            } else {
                assert(json_entries(m, 0) == Seq::<char>::empty());
            }
        },
        JsonModel::Array(a) => {
            if a.len() > 0 {
                lemma_items_prefix(a, a.len() as int);
                assert(item_texts(a).subrange(0, a.len() as int) =~= item_texts(a));
                assert(json_items(a, a.len() as int) == Seq::<char>::empty());
            } else {
                assert(json_items(a, 0) == Seq::<char>::empty());
            }
        },
        _ => {},
    }
}

fn hex_char(d: u32) -> (c: char)
    requires
        d < 16,
    ensures
        c == hex_digit(d as nat),
{
    if d == 0 { '0' } else if d == 1 { '1' } else if d == 2 { '2' } else if d == 3 { '3' }
    else if d == 4 { '4' } else if d == 5 { '5' } else if d == 6 { '6' } else if d == 7 { '7' }
    else if d == 8 { '8' } else if d == 9 { '9' } else if d == 10 { 'a' } else if d == 11 { 'b' }
    else if d == 12 { 'c' } else if d == 13 { 'd' } else if d == 14 { 'e' } else { 'f' }
}

fn push_escape(out: &mut Vec<char>, c: char)
    ensures
        final(out)@ == old(out)@ + json_escape(c),
{
    let ghost before = out@;
    if c == '"' { out.push('\\'); out.push('"'); }
    else if c == '\\' { out.push('\\'); out.push('\\'); }
    else if c == '\n' { out.push('\\'); out.push('n'); }
    else if c == '\r' { out.push('\\'); out.push('r'); }
    else if c == '\t' { out.push('\\'); out.push('t'); }
    else if c == '\u{8}' { out.push('\\'); out.push('b'); }
    else if c == '\u{c}' { out.push('\\'); out.push('f'); }
    else if (c as u32) < 0x20 {
        out.push('\\'); out.push('u'); out.push('0'); out.push('0');
        out.push(hex_char((c as u32) / 16));
        out.push(hex_char((c as u32) % 16));
    } else {
        out.push(c);
    }
    assert(out@ =~= before + json_escape(c));
}

fn push_quoted(out: &mut Vec<char>, s: &str)
    ensures
        final(out)@ == old(out)@ + json_quote(s@),
{
    let chars = str_chars(s);
    let ghost start = out@;
    out.push('"');
    let mut i: usize = 0;
    while i < chars.len()
        invariant
            i <= chars@.len(),
            chars@ == s@,
            out@ == start + seq!['"'] + json_escaped(chars@.subrange(0, i as int)),
        decreases chars.len() - i,
    {
        let ghost before = out@;
        push_escape(out, chars[i]);
        proof {
            assert(chars@.subrange(0, i + 1).drop_last() =~= chars@.subrange(0, i as int));
            assert(out@ =~= start + seq!['"'] + json_escaped(chars@.subrange(0, i + 1)));
        }
        i = i + 1;
    }
    assert(chars@.subrange(0, i as int) =~= s@);
    out.push('"');
    assert(out@ =~= start + json_quote(s@));
}

fn push_str(out: &mut Vec<char>, s: &str)
    ensures
        final(out)@ == old(out)@ + s@,
{
    let chars = str_chars(s);
    let ghost start = out@;
    let mut i: usize = 0;
    while i < chars.len()
        invariant
            i <= chars@.len(),
            chars@ == s@,
            out@ == start + chars@.subrange(0, i as int),
        decreases chars.len() - i,
    {
        out.push(chars[i]);
        i = i + 1;
        assert(out@ =~= start + chars@.subrange(0, i as int));
    }
    assert(chars@.subrange(0, i as int) =~= s@);
}

#[verifier::rlimit(40)]
fn write_json(v: &JsonValue, out: &mut Vec<char>)
    ensures
        final(out)@ == old(out)@ + json_text(v.model()),
    decreases v,
{
    match v {
        JsonValue::Null => {
            proof { reveal_strlit("null"); }
            push_str(out, "null");
        },
        JsonValue::Bool(b) => {
            proof { reveal_strlit("true"); reveal_strlit("false"); }
            if *b { push_str(out, "true"); } else { push_str(out, "false"); }
        },
        JsonValue::Number(n) => {
            push_str(out, n.as_str());
        },
        JsonValue::Str(t) => {
            push_quoted(out, t.as_str());
        },
        JsonValue::Array(a) => {
            let ghost am = JsonValue::models(a@);
            proof { lemma_models_index(a@); }
            let ghost start = out@;
            out.push('[');
            let mut i: usize = 0;
            #[verifier::loop_isolation(false)]
            while i < a.len()
                invariant
                    i <= a.len(),
                    out@ + json_items(am, i as int) == start + seq!['['] + json_items(am, 0),
                decreases a.len() - i,
            {
                let ghost before = out@;
                if i > 0 {
                    out.push(',');
                }
                write_json(&a[i], out);
                proof {
                    assert(out@ + json_items(am, i + 1) =~= before + json_items(am, i as int));
                }
                i = i + 1;
            }
            out.push(']');
            assert(out@ =~= start + json_text(v.model()));
        },
        JsonValue::Object(m) => {
            let ghost em = JsonValue::entry_models(m@);
            proof { lemma_entry_models_index(m@); }
            let ghost start = out@;
            out.push('{');
            let mut i: usize = 0;
            #[verifier::loop_isolation(false)]
            while i < m.len()
                invariant
                    i <= m.len(),
                    out@ + json_entries(em, i as int) == start + seq!['{'] + json_entries(em, 0),
                decreases m.len() - i,
            {
                let ghost before = out@;
                if i > 0 {
                    out.push(',');
                }
                push_quoted(out, m[i].0.as_str());
                out.push(':');
                write_json(&m[i].1, out);
                proof {
                    assert(out@ + json_entries(em, i + 1) =~= before + json_entries(em, i as int));
                }
                i = i + 1;
            }
            out.push('}');
            assert(out@ =~= start + json_text(v.model()));
        },
    }
}

/// The compact JSON text of a value.
pub fn to_json_text(v: &JsonValue) -> (r: String)
    ensures
        r@ == json_text(v.model()),
        v.model() matches JsonModel::Object(m) ==> r@ == seq!['{'] + join_with(entry_texts(m), ',') + seq!['}'],
        v.model() matches JsonModel::Array(a) ==> r@ == seq!['['] + join_with(item_texts(a), ',') + seq![']'],
{
    proof {
        law_json_containers_comma_separated(v.model());
    }
    let mut out: Vec<char> = Vec::new();
    write_json(v, &mut out);
    assert(out@ =~= json_text(v.model()));
    string_from_chars(out.as_slice())
}

// ---------------------------------------------------------------------------
// Applying rendered templates to a payload
// ---------------------------------------------------------------------------

/// The payload after setting each path of `ast[i..]`, in order, to its rendered template.
pub open spec fn sp_apply(v: JsonModel, ast: Seq<(String, Vec<Expr>)>, i: int, ctx: TemplateContext) -> JsonModel
    decreases ast.len() - i,
{
    if 0 <= i < ast.len() {
        let rendered = spec_render(Expr::models(ast[i].1@), ctx);
        sp_apply(spec_set_json_value(v, ast[i].0@, JsonModel::Str(rendered)), ast, i + 1, ctx)
    } else {
        v
    }
}

/// The payload after setting each path of `ast[i..]`, in order, to the text in
/// `rendered` at the same place.
pub open spec fn sp_apply_rendered(v: JsonModel, ast: Seq<(String, Vec<Expr>)>, rendered: Seq<Seq<char>>, i: int) -> JsonModel
    decreases ast.len() - i,
{
    if 0 <= i < ast.len() {
        sp_apply_rendered(spec_set_json_value(v, ast[i].0@, JsonModel::Str(rendered[i])), ast, rendered, i + 1)
    } else {
        v
    }
}

/// `rendered` holds, for each entry of `ast`, a text its template can render to.
pub open spec fn renderings_of(ast: Seq<(String, Vec<Expr>)>, ctx: TemplateContext, rendered: Seq<Seq<char>>) -> bool {
    &&& rendered.len() == ast.len()
    &&& forall|i: int| 0 <= i < ast.len() ==> render_outcome(Expr::models(ast[i].1@), ctx, #[trigger] rendered[i])
}

pub open spec fn ast_is_static(ast: Seq<(String, Vec<Expr>)>) -> bool {
    forall|i: int, k: int| 0 <= i < ast.len() && 0 <= k < ast[i].1@.len() ==> !has_dynamic(#[trigger] ast[i].1@[k].model())
}

pub open spec fn ast_paths_fit(ast: Seq<(String, Vec<Expr>)>) -> bool {
    forall|i: int| 0 <= i < ast.len() ==> path_indexes_fit(spec_parse_path(#[trigger] ast[i].0@))
}

/// Sets each path of `payload_ast` to the rendering of its template, in order.
pub fn apply_payload_ast(value: &mut JsonValue, payload_ast: &Vec<(String, Vec<Expr>)>, ctx: &TemplateContext)
    requires
        ast_paths_fit(payload_ast@),
    ensures
        exists|rendered: Seq<Seq<char>>| #[trigger] renderings_of(payload_ast@, *ctx, rendered)
            && final(value).model() == sp_apply_rendered(old(value).model(), payload_ast@, rendered, 0),
        ast_is_static(payload_ast@) ==> final(value).model() == sp_apply(old(value).model(), payload_ast@, 0, *ctx),
{
    let mut i: usize = 0;
    let ghost v0 = value.model();
    let ghost mut rendered_all = Seq::<Seq<char>>::empty();
    let ghost mut tail = Seq::<Seq<char>>::empty();
    while i < payload_ast.len()
        invariant
            i <= payload_ast.len(),
            ast_paths_fit(payload_ast@),
            ast_is_static(payload_ast@) ==> sp_apply(v0, payload_ast@, 0, *ctx) == sp_apply(value.model(), payload_ast@, i as int, *ctx),
            rendered_all.len() == i,
            forall|k: int| 0 <= k < i ==> render_outcome(Expr::models(payload_ast@[k].1@), *ctx, #[trigger] rendered_all[k]),
            forall|rest: Seq<Seq<char>>| rest.len() == payload_ast@.len() - i ==>
                sp_apply_rendered(v0, payload_ast@, #[trigger] (rendered_all + rest), 0)
                    == sp_apply_rendered(value.model(), payload_ast@, rendered_all + rest, i as int),
        decreases payload_ast.len() - i,
    {
        let (path, exprs) = (&payload_ast[i].0, &payload_ast[i].1);
        let rendered = render_template_string(exprs.as_slice(), ctx);
        assert(path_indexes_fit(spec_parse_path(payload_ast@[i as int].0@)));
        let ghost before = value.model();
        set_json_value(value, path.as_str(), JsonValue::Str(rendered));
        proof {
            let old_all = rendered_all;
            rendered_all = rendered_all.push(rendered@);
            assert forall|rest: Seq<Seq<char>>| rest.len() == payload_ast@.len() - (i + 1) implies
                sp_apply_rendered(v0, payload_ast@, #[trigger] (rendered_all + rest), 0)
                    == sp_apply_rendered(value.model(), payload_ast@, rendered_all + rest, i + 1) by {
                let rest2 = seq![rendered@] + rest;
                assert(old_all + rest2 =~= rendered_all + rest);
                assert((rendered_all + rest)[i as int] == rendered@);
            }
        }
        i = i + 1;
    }
    proof {
        assert(rendered_all + Seq::<Seq<char>>::empty() =~= rendered_all);
        assert(renderings_of(payload_ast@, *ctx, rendered_all));
    }
}

} // verus!
