//! A JSON document model and the rewriting of outdated configuration keys.
use vstd::prelude::*;
use crate::text::str_eq;
use vstd::string::*;

verus! {

/// A JSON value.
pub enum JsonValue {
    Null,
    Bool(bool),
    /// A number, kept as its text.
    Number(String),
    Str(String),
    Array(Vec<JsonValue>),
    /// Members in order; keys are distinct.
    Object(Vec<(String, JsonValue)>),
}

/// A JSON value as a mathematical value.
pub enum Json {
    Null,
    Bool(bool),
    Number(Seq<char>),
    Str(Seq<char>),
    Array(Seq<Json>),
    Object(Seq<(Seq<char>, Json)>),
}

impl JsonValue {
    pub open spec fn model(&self) -> Json
        decreases self,
    {
        match self {
            JsonValue::Null => Json::Null,
            JsonValue::Bool(b) => Json::Bool(*b),
            JsonValue::Number(n) => Json::Number(n@),
            JsonValue::Str(s) => Json::Str(s@),
            JsonValue::Array(items) => {
                proof {
                    assert forall|i: int| 0 <= i < items@.len() implies decreases_to!(*self => items@[i]) by {
                        vstd::std_specs::vec::axiom_vec_index_decreases(*items, i);
                        assert(decreases_to!(*self => self->Array_0));
                    }
                }
                Json::Array(Seq::new(items@.len(), |i: int| if 0 <= i < items@.len() { items@[i].model() } else { Json::Null }))
            },
            JsonValue::Object(es) => {
                proof {
                    assert forall|i: int| 0 <= i < es@.len() implies decreases_to!(*self => es@[i].1) by {
                        vstd::std_specs::vec::axiom_vec_index_decreases(*es, i);
                        assert(decreases_to!(*self => self->Object_0));
                        assert(decreases_to!(es@[i] => es@[i].1));
                    }
                }
                Json::Object(Seq::new(es@.len(), |i: int| if 0 <= i < es@.len() { (es@[i].0@, es@[i].1.model()) } else { (Seq::empty(), Json::Null) }))
            },
        }
    }
}

/// The members of an object, as mathematical values.
pub open spec fn members(es: Seq<(String, JsonValue)>) -> Seq<(Seq<char>, Json)> {
    Seq::new(es.len(), |i: int| (es[i].0@, es[i].1.model()))
}

/// The position of the member named `k`, or -1.
pub open spec fn key_index(es: Seq<(Seq<char>, Json)>, k: Seq<char>) -> int
    decreases es.len(),
{
    if es.len() == 0 {
        -1
    } else if es.last().0 == k {
        es.len() - 1
    } else {
        key_index(es.drop_last(), k)
    }
}

/// `src` merged into `dst`: two objects merge member by member, anything
/// else is replaced by `src`.
pub open spec fn merged(dst: Json, src: Json) -> Json
    decreases src,
{
    match (dst, src) {
        (Json::Object(d), Json::Object(s)) => Json::Object(merge_members(d, s)),
        _ => src,
    }
}

/// The members of `s` merged, in order, into the members `d`: a member whose
/// key is present merges into it, another is added (merged into itself).
pub open spec fn merge_members(d: Seq<(Seq<char>, Json)>, s: Seq<(Seq<char>, Json)>) -> Seq<(Seq<char>, Json)>
    decreases s,
{
    if s.len() == 0 {
        d
    } else {
        let front = merge_members(d, s.drop_last());
        let k = s.last().0;
        let v = s.last().1;
        let i = key_index(front, k);
        proof {
            assert(decreases_to!(s => s[s.len() - 1]));
        }
        if i >= 0 {
            front.update(i, (k, merged(front[i].1, v)))
        } else {
            front.push((k, merged(v, v)))
        }
    }
}

/// The value at `path`, following object members.
pub open spec fn pointer(v: Json, path: Seq<Seq<char>>) -> Option<Json>
    decreases path.len(),
{
    if path.len() == 0 {
        Some(v)
    } else {
        match v {
            Json::Object(es) => {
                let i = key_index(es, path[0]);
                if i >= 0 {
                    pointer(es[i].1, path.drop_first())
                } else {
                    None
                }
            },
            _ => None,
        }
    }
}

/// `v` nested in objects along `path`.
pub open spec fn wrap(path: Seq<Seq<char>>, v: Json) -> Json
    decreases path.len(),
{
    if path.len() == 0 {
        v
    } else {
        Json::Object(seq![(path[0], wrap(path.drop_first(), v))])
    }
}

proof fn lemma_object_model(es: Vec<(String, JsonValue)>)
    ensures
        JsonValue::Object(es).model() == Json::Object(members(es@)),
{
    let m = JsonValue::Object(es).model();
    let inner = m->Object_0;
    assert(inner =~= members(es@));
}

proof fn lemma_array_model(items: Vec<JsonValue>)
    ensures
        JsonValue::Array(items).model() == Json::Array(Seq::new(items@.len(), |i: int| items@[i].model())),
{
    let m = JsonValue::Array(items).model();
    let inner = m->Array_0;
    assert(inner =~= Seq::new(items@.len(), |i: int| items@[i].model()));
}

pub open spec fn path_of(p: Seq<&str>) -> Seq<Seq<char>> {
    Seq::new(p.len(), |i: int| p[i]@)
}

fn copy_members(es: &Vec<(String, JsonValue)>) -> (r: Vec<(String, JsonValue)>)
    ensures
        members(r@) == members(es@),
    decreases es, 0int,
{
    let mut r: Vec<(String, JsonValue)> = Vec::new();
    let mut i: usize = 0;
    while i < es.len()
        invariant
            i <= es@.len(),
            r@.len() == i,
            forall|j: int| 0 <= j < i ==> r@[j].0@ == es@[j].0@ && r@[j].1.model() == es@[j].1.model(),
        decreases es@.len() - i,
    {
        proof {
            vstd::std_specs::vec::axiom_vec_index_decreases(*es, i as int);
        }
        let k = es[i].0.clone();
        let v = copy_json(&es[i].1);
        r.push((k, v));
        i = i + 1;
    }
    assert(members(r@) =~= members(es@));
    r
}

/// A copy of a JSON value.
pub fn copy_json(v: &JsonValue) -> (r: JsonValue)
    ensures
        r.model() == v.model(),
    decreases v, 1int,
{
    match v {
        JsonValue::Null => JsonValue::Null,
        JsonValue::Bool(b) => JsonValue::Bool(*b),
        JsonValue::Number(n) => JsonValue::Number(n.clone()),
        JsonValue::Str(t) => JsonValue::Str(t.clone()),
        JsonValue::Array(items) => {
            let mut r: Vec<JsonValue> = Vec::new();
            let mut i: usize = 0;
            while i < items.len()
                invariant
                    i <= items@.len(),
                    r@.len() == i,
                    *v == JsonValue::Array(*items),
                    forall|j: int| 0 <= j < i ==> r@[j].model() == items@[j].model(),
                decreases items@.len() - i,
            {
                proof {
                    vstd::std_specs::vec::axiom_vec_index_decreases(*items, i as int);
                    assert(decreases_to!(*v => v->Array_0));
                }
                r.push(copy_json(&items[i]));
                i = i + 1;
            }
            proof {
                lemma_array_model(r);
                lemma_array_model(*items);
                assert(Seq::new(r@.len(), |j: int| r@[j].model()) =~= Seq::new(items@.len(), |j: int| items@[j].model()));
            }
            JsonValue::Array(r)
        },
        JsonValue::Object(es) => {
            proof {
                assert(decreases_to!(*v => v->Object_0));
            }
            let c = copy_members(es);
            proof {
                lemma_object_model(c);
                lemma_object_model(*es);
            }
            JsonValue::Object(c)
        },
    }
}

fn find_key(es: &Vec<(String, JsonValue)>, k: &str) -> (r: Option<usize>)
    ensures
        r matches Some(i) ==> i < es@.len() && i as int == key_index(members(es@), k@),
        r is None ==> key_index(members(es@), k@) == -1,
{
    let ghost m = members(es@);
    let mut i: usize = es.len();
    assert(m.subrange(0, i as int) =~= m);
    while i > 0
        invariant
            i <= es@.len(),
            m == members(es@),
            key_index(m, k@) == key_index(m.subrange(0, i as int), k@),
        decreases i,
    {
        proof {
            assert(m.subrange(0, i as int).drop_last() =~= m.subrange(0, i - 1));
        }
        if str_eq(es[i - 1].0.as_str(), k) {
            return Some(i - 1);
        }
        i = i - 1;
    }
    None
}

/// Merges `src` into `dst`.
pub fn merge(dst: JsonValue, src: JsonValue) -> (r: JsonValue)
    ensures
        r.model() == merged(dst.model(), src.model()),
    decreases src.model(),
{
    let ghost src_model = src.model();
    match (dst, src) {
        (JsonValue::Object(mut d), JsonValue::Object(s)) => {
            let ghost d0 = members(d@);
            let ghost sm = members(s@);
            proof {
                lemma_object_model(d);
                lemma_object_model(s);
            }
            let mut i: usize = 0;
            while i < s.len()
                invariant
                    i <= s@.len(),
                    sm == members(s@),
                    src_model == Json::Object(sm),
                    src_model == src.model(),
                    members(d@) == merge_members(d0, sm.subrange(0, i as int)),
                decreases s@.len() - i,
            {
                let k = s[i].0.clone();
                let v = copy_json(&s[i].1);
                proof {
                    assert(sm.subrange(0, i + 1).drop_last() =~= sm.subrange(0, i as int));
                    assert(sm[i as int].1 == v.model());
                    assert(decreases_to!(src_model => src_model->Object_0));
                    assert(decreases_to!(sm => sm[i as int]));
                    assert(decreases_to!(sm[i as int] => sm[i as int].1));
                    assert(decreases_to!(src_model => v.model()));
                }
                match find_key(&d, k.as_str()) {
                    Some(j) => {
                        let old = copy_json(&d[j].1);
                        let m = merge(old, v);
                        d.set(j, (k, m));
                    },
                    None => {
                        let w = copy_json(&v);
                        let m = merge(w, v);
                        d.push((k, m));
                    },
                }
                proof {
                    assert(members(d@) =~= merge_members(d0, sm.subrange(0, i + 1)));
                }
                i = i + 1;
            }
            proof {
                assert(sm.subrange(0, i as int) =~= sm);
                lemma_object_model(d);
            }
            JsonValue::Object(d)
        },
        (_, src) => src,
    }
}

/// The value at `path[i..]` below `v`.
fn pointer_from(v: &JsonValue, path: &Vec<&str>, i: usize) -> (r: Option<JsonValue>)
    requires
        i <= path@.len(),
    ensures
        r matches Some(x) ==> pointer(v.model(), path_of(path@).subrange(i as int, path@.len() as int)) == Some(x.model()),
        r is None ==> pointer(v.model(), path_of(path@).subrange(i as int, path@.len() as int)) is None,
    decreases path@.len() - i,
{
    let ghost rest = path_of(path@).subrange(i as int, path@.len() as int);
    if i == path.len() {
        return Some(copy_json(v));
    }
    match v {
        JsonValue::Object(es) => {
            proof {
                lemma_object_model(*es);
                assert(rest[0] == path@[i as int]@);
                assert(rest.drop_first() =~= path_of(path@).subrange(i + 1, path@.len() as int));
            }
            match find_key(es, path[i]) {
                Some(j) => pointer_from(&es[j].1, path, i + 1),
                None => None,
            }
        },
        _ => None,
    }
}

/// The value at `path` below `v`.
pub fn json_pointer(v: &JsonValue, path: &Vec<&str>) -> (r: Option<JsonValue>)
    ensures
        r matches Some(x) ==> pointer(v.model(), path_of(path@)) == Some(x.model()),
        r is None ==> pointer(v.model(), path_of(path@)) is None,
{
    assert(path_of(path@).subrange(0, path@.len() as int) =~= path_of(path@));
    pointer_from(v, path, 0)
}

/// `v` nested in objects along `path`.
pub fn wrap_value(path: &Vec<&str>, v: JsonValue) -> (r: JsonValue)
    ensures
        r.model() == wrap(path_of(path@), v.model()),
{
    let ghost p = path_of(path@);
    let mut last = v;
    let mut i: usize = path.len();
    assert(p.subrange(i as int, p.len() as int) =~= Seq::<Seq<char>>::empty());
    while i > 0
        invariant
            i <= path@.len(),
            p == path_of(path@),
            last.model() == wrap(p.subrange(i as int, p.len() as int), v.model()),
        decreases i,
    {
        let key = String::from_str(path[i - 1]);
        let mut members: Vec<(String, JsonValue)> = Vec::new();
        members.push((key, last));
        proof {
            lemma_object_model(members);
            let sub = p.subrange(i - 1, p.len() as int);
            assert(sub.drop_first() =~= p.subrange(i as int, p.len() as int));
            assert(crate::json::members(members@) =~= seq![(sub[0], wrap(sub.drop_first(), v.model()))]);
        }
        last = JsonValue::Object(members);
        i = i - 1;
    }
    assert(p.subrange(0, p.len() as int) =~= p);
    last
}

/// An outdated configuration key and the key that replaced it.
pub struct KeyRename {
    pub from: Vec<&'static str>,
    pub to: Vec<&'static str>,
}

/// The renames of a table given as key paths.
pub open spec fn rules_of(rules: Seq<(Seq<&str>, Seq<&str>)>) -> Seq<(Seq<Seq<char>>, Seq<Seq<char>>)> {
    Seq::new(rules.len(), |i: int| (path_of(rules[i].0), path_of(rules[i].1)))
}

pub open spec fn renames_of(rules: Seq<KeyRename>) -> Seq<(Seq<Seq<char>>, Seq<Seq<char>>)> {
    Seq::new(rules.len(), |i: int| (path_of(rules[i].from@), path_of(rules[i].to@)))
}

/// One rename: a non-object value found at `from` in the unpatched document
/// is merged into `json` under `to`.
pub open spec fn rename_step(copy: Json, json: Json, from: Seq<Seq<char>>, to: Seq<Seq<char>>) -> Json {
    match pointer(copy, from) {
        Some(Json::Object(_)) => json,
        Some(it) => merged(json, wrap(to, it)),
        None => json,
    }
}

/// The renames applied in order.
pub open spec fn renamed(copy: Json, json: Json, rules: Seq<(Seq<Seq<char>>, Seq<Seq<char>>)>) -> Json
    decreases rules.len(),
{
    if rules.len() == 0 {
        json
    } else {
        rename_step(copy, renamed(copy, json, rules.drop_last()), rules.last().0, rules.last().1)
    }
}

/// Applies each rename, reading values from `copy`.
pub fn apply_renames(copy: &JsonValue, json: JsonValue, rules: &Vec<KeyRename>) -> (r: JsonValue)
    ensures
        r.model() == renamed(copy.model(), json.model(), renames_of(rules@)),
{
    let ghost rm = renames_of(rules@);
    let ghost j0 = json.model();
    let mut json = json;
    let mut i: usize = 0;
    while i < rules.len()
        invariant
            i <= rules@.len(),
            rm == renames_of(rules@),
            json.model() == renamed(copy.model(), j0, rm.subrange(0, i as int)),
        decreases rules@.len() - i,
    {
        proof {
            assert(rm.subrange(0, i + 1).drop_last() =~= rm.subrange(0, i as int));
        }
        match json_pointer(copy, &rules[i].from) {
            Some(it) => {
                match it {
                    JsonValue::Object(_) => {},
                    other => {
                        let w = wrap_value(&rules[i].to, other);
                        json = merge(json, w);
                    },
                }
            },
            None => {},
        }
        i = i + 1;
    }
    assert(rm.subrange(0, i as int) =~= rm);
    json
}

/// The renamed configuration keys as paths: the old key, then the new one.
pub open spec fn outdated_rules() -> Seq<(Seq<&'static str>, Seq<&'static str>)> {
    seq![
        (seq!["assist", "allowMergingIntoGlobImports"], seq!["imports", "merge", "glob"]),
        (seq!["assist", "exprFillDefault"], seq!["assist", "expressionFillDefault"]),
        (seq!["assist", "importEnforceGranularity"], seq!["imports", "granularity", "enforce"]),
        (seq!["assist", "importGranularity"], seq!["imports", "granularity", "group"]),
        (seq!["assist", "importMergeBehavior"], seq!["imports", "granularity", "group"]),
        (seq!["assist", "importMergeBehaviour"], seq!["imports", "granularity", "group"]),
        (seq!["assist", "importGroup"], seq!["imports", "group", "enable"]),
        (seq!["assist", "importPrefix"], seq!["imports", "prefix"]),
        (seq!["primeCaches", "enable"], seq!["cachePriming", "enable"]),
        (seq!["cache", "warmup"], seq!["cachePriming", "enable"]),
        (seq!["cargo", "loadOutDirsFromCheck"], seq!["cargo", "buildScripts", "enable"]),
        (seq!["cargo", "runBuildScripts"], seq!["cargo", "buildScripts", "enable"]),
        (seq!["cargo", "runBuildScriptsCommand"], seq!["cargo", "buildScripts", "overrideCommand"]),
        (seq!["cargo", "useRustcWrapperForBuildScripts"], seq!["cargo", "buildScripts", "useRustcWrapper"]),
        (seq!["diagnostics", "enableExperimental"], seq!["diagnostics", "experimental", "enable"]),
        (seq!["experimental", "procAttrMacros"], seq!["procMacro", "attributes", "enable"]),
        (seq!["highlighting", "strings"], seq!["semanticHighlighting", "strings", "enable"]),
        (seq!["highlightRelated", "breakPoints"], seq!["semanticHighlighting", "breakPoints", "enable"]),
        (seq!["highlightRelated", "exitPoints"], seq!["semanticHighlighting", "exitPoints", "enable"]),
        (seq!["highlightRelated", "yieldPoints"], seq!["semanticHighlighting", "yieldPoints", "enable"]),
        (seq!["highlightRelated", "references"], seq!["semanticHighlighting", "references", "enable"]),
        (seq!["hover", "documentation"], seq!["hover", "documentation", "enable"]),
        (seq!["hover", "linksInHover"], seq!["hover", "links", "enable"]),
        (seq!["hoverActions", "linksInHover"], seq!["hover", "links", "enable"]),
        (seq!["hoverActions", "debug"], seq!["hover", "actions", "debug", "enable"]),
        (seq!["hoverActions", "enable"], seq!["hover", "actions", "enable"]),
        (seq!["hoverActions", "gotoTypeDef"], seq!["hover", "actions", "gotoTypeDef", "enable"]),
        (seq!["hoverActions", "implementations"], seq!["hover", "actions", "implementations", "enable"]),
        (seq!["hoverActions", "references"], seq!["hover", "actions", "references", "enable"]),
        (seq!["hoverActions", "run"], seq!["hover", "actions", "run", "enable"]),
        (seq!["inlayHints", "chainingHints"], seq!["inlayHints", "chainingHints", "enable"]),
        (seq!["inlayHints", "closureReturnTypeHints"], seq!["inlayHints", "closureReturnTypeHints", "enable"]),
        (seq!["inlayHints", "hideNamedConstructorHints"], seq!["inlayHints", "typeHints", "hideNamedConstructorHints"]),
        (seq!["inlayHints", "parameterHints"], seq!["inlayHints", "parameterHints", "enable"]),
        (seq!["inlayHints", "reborrowHints"], seq!["inlayHints", "reborrowHints", "enable"]),
        (seq!["inlayHints", "typeHints"], seq!["inlayHints", "typeHints", "enable"]),
        (seq!["lruCapacity"], seq!["lru", "capacity"]),
        (seq!["runnables", "cargoExtraArgs"], seq!["runnables", "extraArgs"]),
        (seq!["runnables", "overrideCargo"], seq!["runnables", "command"]),
        (seq!["rustcSource"], seq!["rustc", "source"]),
        (seq!["rustfmt", "enableRangeFormatting"], seq!["rustfmt", "rangeFormatting", "enable"])
    ]
}

fn push_renames_0(v: &mut Vec<KeyRename>)
    requires
        old(v)@.len() == 0,
        forall|i: int| 0 <= i < 0 ==> (#[trigger] old(v)@[i]).from@ == outdated_rules()[i].0 && old(v)@[i].to@ == outdated_rules()[i].1,
    ensures
        final(v)@.len() == 7,
        forall|i: int| 0 <= i < 7 ==> (#[trigger] final(v)@[i]).from@ == outdated_rules()[i].0 && final(v)@[i].to@ == outdated_rules()[i].1,
{
    v.push(KeyRename { from: vec!["assist", "allowMergingIntoGlobImports"], to: vec!["imports", "merge", "glob"] });
    v.push(KeyRename { from: vec!["assist", "exprFillDefault"], to: vec!["assist", "expressionFillDefault"] });
    v.push(KeyRename { from: vec!["assist", "importEnforceGranularity"], to: vec!["imports", "granularity", "enforce"] });
    v.push(KeyRename { from: vec!["assist", "importGranularity"], to: vec!["imports", "granularity", "group"] });
    v.push(KeyRename { from: vec!["assist", "importMergeBehavior"], to: vec!["imports", "granularity", "group"] });
    v.push(KeyRename { from: vec!["assist", "importMergeBehaviour"], to: vec!["imports", "granularity", "group"] });
    v.push(KeyRename { from: vec!["assist", "importGroup"], to: vec!["imports", "group", "enable"] });
}

fn push_renames_1(v: &mut Vec<KeyRename>)
    requires
        old(v)@.len() == 7,
        forall|i: int| 0 <= i < 7 ==> (#[trigger] old(v)@[i]).from@ == outdated_rules()[i].0 && old(v)@[i].to@ == outdated_rules()[i].1,
    ensures
        final(v)@.len() == 14,
        forall|i: int| 0 <= i < 14 ==> (#[trigger] final(v)@[i]).from@ == outdated_rules()[i].0 && final(v)@[i].to@ == outdated_rules()[i].1,
{
    v.push(KeyRename { from: vec!["assist", "importPrefix"], to: vec!["imports", "prefix"] });
    v.push(KeyRename { from: vec!["primeCaches", "enable"], to: vec!["cachePriming", "enable"] });
    v.push(KeyRename { from: vec!["cache", "warmup"], to: vec!["cachePriming", "enable"] });
    v.push(KeyRename { from: vec!["cargo", "loadOutDirsFromCheck"], to: vec!["cargo", "buildScripts", "enable"] });
    v.push(KeyRename { from: vec!["cargo", "runBuildScripts"], to: vec!["cargo", "buildScripts", "enable"] });
    v.push(KeyRename { from: vec!["cargo", "runBuildScriptsCommand"], to: vec!["cargo", "buildScripts", "overrideCommand"] });
    v.push(KeyRename { from: vec!["cargo", "useRustcWrapperForBuildScripts"], to: vec!["cargo", "buildScripts", "useRustcWrapper"] });
}

fn push_renames_2(v: &mut Vec<KeyRename>)
    requires
        old(v)@.len() == 14,
        forall|i: int| 0 <= i < 14 ==> (#[trigger] old(v)@[i]).from@ == outdated_rules()[i].0 && old(v)@[i].to@ == outdated_rules()[i].1,
    ensures
        final(v)@.len() == 21,
        forall|i: int| 0 <= i < 21 ==> (#[trigger] final(v)@[i]).from@ == outdated_rules()[i].0 && final(v)@[i].to@ == outdated_rules()[i].1,
{
    v.push(KeyRename { from: vec!["diagnostics", "enableExperimental"], to: vec!["diagnostics", "experimental", "enable"] });
    v.push(KeyRename { from: vec!["experimental", "procAttrMacros"], to: vec!["procMacro", "attributes", "enable"] });
    v.push(KeyRename { from: vec!["highlighting", "strings"], to: vec!["semanticHighlighting", "strings", "enable"] });
    v.push(KeyRename { from: vec!["highlightRelated", "breakPoints"], to: vec!["semanticHighlighting", "breakPoints", "enable"] });
    v.push(KeyRename { from: vec!["highlightRelated", "exitPoints"], to: vec!["semanticHighlighting", "exitPoints", "enable"] });
    v.push(KeyRename { from: vec!["highlightRelated", "yieldPoints"], to: vec!["semanticHighlighting", "yieldPoints", "enable"] });
    v.push(KeyRename { from: vec!["highlightRelated", "references"], to: vec!["semanticHighlighting", "references", "enable"] });
}

fn push_renames_3(v: &mut Vec<KeyRename>)
    requires
        old(v)@.len() == 21,
        forall|i: int| 0 <= i < 21 ==> (#[trigger] old(v)@[i]).from@ == outdated_rules()[i].0 && old(v)@[i].to@ == outdated_rules()[i].1,
    ensures
        final(v)@.len() == 28,
        forall|i: int| 0 <= i < 28 ==> (#[trigger] final(v)@[i]).from@ == outdated_rules()[i].0 && final(v)@[i].to@ == outdated_rules()[i].1,
{
    v.push(KeyRename { from: vec!["hover", "documentation"], to: vec!["hover", "documentation", "enable"] });
    v.push(KeyRename { from: vec!["hover", "linksInHover"], to: vec!["hover", "links", "enable"] });
    v.push(KeyRename { from: vec!["hoverActions", "linksInHover"], to: vec!["hover", "links", "enable"] });
    v.push(KeyRename { from: vec!["hoverActions", "debug"], to: vec!["hover", "actions", "debug", "enable"] });
    v.push(KeyRename { from: vec!["hoverActions", "enable"], to: vec!["hover", "actions", "enable"] });
    v.push(KeyRename { from: vec!["hoverActions", "gotoTypeDef"], to: vec!["hover", "actions", "gotoTypeDef", "enable"] });
    v.push(KeyRename { from: vec!["hoverActions", "implementations"], to: vec!["hover", "actions", "implementations", "enable"] });
}

fn push_renames_4(v: &mut Vec<KeyRename>)
    requires
        old(v)@.len() == 28,
        forall|i: int| 0 <= i < 28 ==> (#[trigger] old(v)@[i]).from@ == outdated_rules()[i].0 && old(v)@[i].to@ == outdated_rules()[i].1,
    ensures
        final(v)@.len() == 35,
        forall|i: int| 0 <= i < 35 ==> (#[trigger] final(v)@[i]).from@ == outdated_rules()[i].0 && final(v)@[i].to@ == outdated_rules()[i].1,
{
    v.push(KeyRename { from: vec!["hoverActions", "references"], to: vec!["hover", "actions", "references", "enable"] });
    v.push(KeyRename { from: vec!["hoverActions", "run"], to: vec!["hover", "actions", "run", "enable"] });
    v.push(KeyRename { from: vec!["inlayHints", "chainingHints"], to: vec!["inlayHints", "chainingHints", "enable"] });
    v.push(KeyRename { from: vec!["inlayHints", "closureReturnTypeHints"], to: vec!["inlayHints", "closureReturnTypeHints", "enable"] });
    v.push(KeyRename { from: vec!["inlayHints", "hideNamedConstructorHints"], to: vec!["inlayHints", "typeHints", "hideNamedConstructorHints"] });
    v.push(KeyRename { from: vec!["inlayHints", "parameterHints"], to: vec!["inlayHints", "parameterHints", "enable"] });
    v.push(KeyRename { from: vec!["inlayHints", "reborrowHints"], to: vec!["inlayHints", "reborrowHints", "enable"] });
}

fn push_renames_5(v: &mut Vec<KeyRename>)
    requires
        old(v)@.len() == 35,
        forall|i: int| 0 <= i < 35 ==> (#[trigger] old(v)@[i]).from@ == outdated_rules()[i].0 && old(v)@[i].to@ == outdated_rules()[i].1,
    ensures
        final(v)@.len() == 41,
        forall|i: int| 0 <= i < 41 ==> (#[trigger] final(v)@[i]).from@ == outdated_rules()[i].0 && final(v)@[i].to@ == outdated_rules()[i].1,
{
    v.push(KeyRename { from: vec!["inlayHints", "typeHints"], to: vec!["inlayHints", "typeHints", "enable"] });
    v.push(KeyRename { from: vec!["lruCapacity"], to: vec!["lru", "capacity"] });
    v.push(KeyRename { from: vec!["runnables", "cargoExtraArgs"], to: vec!["runnables", "extraArgs"] });
    v.push(KeyRename { from: vec!["runnables", "overrideCargo"], to: vec!["runnables", "command"] });
    v.push(KeyRename { from: vec!["rustcSource"], to: vec!["rustc", "source"] });
    v.push(KeyRename { from: vec!["rustfmt", "enableRangeFormatting"], to: vec!["rustfmt", "rangeFormatting", "enable"] });
}

/// The configuration keys that were renamed, oldest spelling first.
pub fn outdated_keys() -> (r: Vec<KeyRename>)
    ensures
        renames_of(r@) == rules_of(outdated_rules()),
{
    let mut v: Vec<KeyRename> = Vec::new();
    push_renames_0(&mut v);
    push_renames_1(&mut v);
    push_renames_2(&mut v);
    push_renames_3(&mut v);
    push_renames_4(&mut v);
    push_renames_5(&mut v);
    assert(renames_of(v@) =~= rules_of(outdated_rules()));
    v
}

/// `completion.snippets` given as a bare map of snippets moves under `custom`.
pub open spec fn snippets_step(copy: Json, json: Json) -> Json {
    match pointer(copy, seq!["completion"@, "snippets"@]) {
        Some(Json::Object(obj)) => if obj.len() != 1 || key_index(obj, "custom"@) < 0 {
            merged(json, wrap(seq!["completion"@, "snippets"@, "custom"@], Json::Object(obj)))
        } else {
            json
        },
        _ => json,
    }
}

/// `callInfo.full` becomes the signature-info settings.
pub open spec fn call_info_step(copy: Json, json: Json) -> Json {
    match pointer(copy, seq!["callInfo"@, "full"@]) {
        Some(Json::Bool(b)) => merged(json, Json::Object(seq![
            ("signatureInfo"@, wrap(seq!["documentation"@, "enable"@], Json::Bool(b))),
            ("detail"@, Json::Str(if b { "full"@ } else { "parameters"@ })),
        ])),
        _ => json,
    }
}

/// `<section>.allFeatures = true` becomes `<section>.features = "all"`.
pub open spec fn features_step(copy: Json, json: Json, section: Seq<char>) -> Json {
    match pointer(copy, seq![section, "allFeatures"@]) {
        Some(Json::Bool(true)) => merged(json, wrap(seq![section, "features"@], Json::Str("all"@))),
        _ => json,
    }
}

/// The callable-snippets setting that the two old completion flags imply.
pub open spec fn callable_snippets(copy: Json) -> Option<Seq<char>> {
    let args = pointer(copy, seq!["completion"@, "addCallArgumentSnippets"@]);
    let parens = pointer(copy, seq!["completion"@, "addCallParenthesis"@]);
    match (args, parens) {
        (Some(Json::Bool(true)), Some(Json::Bool(true))) => Some("fill_arguments"@),
        (Some(Json::Bool(true)), _) => Some("add_parentheses"@),
        (Some(Json::Bool(false)), Some(Json::Bool(false))) => Some("add_parentheses"@),
        _ => None,
    }
}

/// A configuration document with its outdated keys carried over to the keys
/// that replaced them; the outdated keys stay.
pub open spec fn outdated_patched(json: Json, rules: Seq<(Seq<Seq<char>>, Seq<Seq<char>>)>) -> Json {
    let j = features_step(json, features_step(json, call_info_step(json, snippets_step(json, renamed(json, json, rules))), "cargo"@), "checkOnSave"@);
    match callable_snippets(json) {
        Some(v) => merged(j, wrap(seq!["completion"@, "callable"@, "snippets"@], Json::Str(v))),
        None => j,
    }
}

fn json_str(s: &str) -> (r: JsonValue)
    ensures
        r.model() == Json::Str(s@),
{
    JsonValue::Str(String::from_str(s))
}

fn bool_at(copy: &JsonValue, path: &Vec<&str>) -> (r: Option<bool>)
    ensures
        r matches Some(b) ==> pointer(copy.model(), path_of(path@)) == Some(Json::Bool(b)),
        r is None ==> !(pointer(copy.model(), path_of(path@)) matches Some(Json::Bool(_))),
{
    match json_pointer(copy, path) {
        Some(JsonValue::Bool(b)) => Some(b),
        _ => None,
    }
}

/// Carries the values of outdated keys over to the keys that replaced them,
/// using the given renames.
pub fn patch_json_with(json: JsonValue, rules: &Vec<KeyRename>) -> (r: JsonValue)
    ensures
        r.model() == outdated_patched(json.model(), renames_of(rules@)),
{
    let copy = copy_json(&json);
    let ghost c = copy.model();
    let mut out = apply_renames(&copy, json, rules);

    let snippets_path = vec!["completion", "snippets"];
    proof {
        assert(path_of(snippets_path@) =~= seq!["completion"@, "snippets"@]);
    }
    match json_pointer(&copy, &snippets_path) {
        Some(JsonValue::Object(obj)) => {
            proof {
                lemma_object_model(obj);
            }
            if obj.len() != 1 || find_key(&obj, "custom").is_none() {
                let path = vec!["completion", "snippets", "custom"];
                proof {
                    assert(path_of(path@) =~= seq!["completion"@, "snippets"@, "custom"@]);
                }
                let w = wrap_value(&path, JsonValue::Object(obj));
                out = merge(out, w);
            }
        },
        _ => {},
    }

    let call_info = vec!["callInfo", "full"];
    proof {
        assert(path_of(call_info@) =~= seq!["callInfo"@, "full"@]);
    }
    match bool_at(&copy, &call_info) {
        Some(b) => {
            let doc_path = vec!["documentation", "enable"];
            proof {
                assert(path_of(doc_path@) =~= seq!["documentation"@, "enable"@]);
            }
            let doc = wrap_value(&doc_path, JsonValue::Bool(b));
            let detail = if b { json_str("full") } else { json_str("parameters") };
            let mut members: Vec<(String, JsonValue)> = Vec::new();
            members.push((String::from_str("signatureInfo"), doc));
            members.push((String::from_str("detail"), detail));
            proof {
                lemma_object_model(members);
                assert(crate::json::members(members@) =~= seq![
                    ("signatureInfo"@, wrap(seq!["documentation"@, "enable"@], Json::Bool(b))),
                    ("detail"@, Json::Str(if b { "full"@ } else { "parameters"@ })),
                ]);
            }
            out = merge(out, JsonValue::Object(members));
        },
        None => {},
    }

    out = features(&copy, out, "cargo");
    out = features(&copy, out, "checkOnSave");

    let args_path = vec!["completion", "addCallArgumentSnippets"];
    let parens_path = vec!["completion", "addCallParenthesis"];
    proof {
        assert(path_of(args_path@) =~= seq!["completion"@, "addCallArgumentSnippets"@]);
        assert(path_of(parens_path@) =~= seq!["completion"@, "addCallParenthesis"@]);
    }
    let args = bool_at(&copy, &args_path);
    let parens = bool_at(&copy, &parens_path);
    let res = match (args, parens) {
        (Some(true), Some(true)) => "fill_arguments",
        (Some(true), _) => "add_parentheses",
        (Some(false), Some(false)) => "add_parentheses",
        _ => {
            return out;
        },
    };
    let path = vec!["completion", "callable", "snippets"];
    proof {
        assert(path_of(path@) =~= seq!["completion"@, "callable"@, "snippets"@]);
    }
    let w = wrap_value(&path, json_str(res));
    merge(out, w)
}

fn features(copy: &JsonValue, json: JsonValue, section: &str) -> (r: JsonValue)
    ensures
        r.model() == features_step(copy.model(), json.model(), section@),
{
    let path = vec![section, "allFeatures"];
    proof {
        assert(path_of(path@) =~= seq![section@, "allFeatures"@]);
    }
    match bool_at(copy, &path) {
        Some(true) => {
            let to = vec![section, "features"];
            proof {
                assert(path_of(to@) =~= seq![section@, "features"@]);
            }
            let w = wrap_value(&to, json_str("all"));
            merge(json, w)
        },
        _ => json,
    }
}

/// Carries the values of outdated configuration keys over to the keys that
/// replaced them.
pub fn patch_json_for_outdated_configs(json: &mut JsonValue)
    ensures
        final(json).model() == outdated_patched(old(json).model(), rules_of(outdated_rules())),
{
    let mut taken = JsonValue::Null;
    core::mem::swap(&mut taken, json);
    let rules = outdated_keys();
    let patched = patch_json_with(taken, &rules);
    *json = patched;
}

} // verus!
