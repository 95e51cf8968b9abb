//! Append-only interning tables: each composite value gets one dense handle
//! for the lifetime of a session.
use vstd::prelude::*;

verus! {

/// The relation between a table before and after `intern(key)` returned `r`.
pub open spec fn interned(before: Seq<(u32, u32, u32)>, key: (u32, u32, u32), after: Seq<(u32, u32, u32)>, r: u32) -> bool {
    &&& r < after.len()
    &&& after[r as int] == key
    &&& before.contains(key) ==> after == before
    &&& !before.contains(key) ==> after == before.push(key)
}

/// No composite stands twice in the table.
pub open spec fn distinct(t: Seq<(u32, u32, u32)>) -> bool {
    forall|i: int, j: int| 0 <= i < j < t.len() ==> t[i] != t[j]
}

/// Interning round trip: looking up the handle that `intern(c)` gave returns
/// `c`, and two successive `intern` calls give the same handle exactly when
/// their composites are equal.
pub proof fn lemma_intern_round_trip(
    t0: Seq<(u32, u32, u32)>,
    c1: (u32, u32, u32),
    t1: Seq<(u32, u32, u32)>,
    r1: u32,
    c2: (u32, u32, u32),
    t2: Seq<(u32, u32, u32)>,
    r2: u32,
)
    requires
        distinct(t0),
        interned(t0, c1, t1, r1),
        interned(t1, c2, t2, r2),
    ensures
        t2[r1 as int] == c1,
        t2[r2 as int] == c2,
        r1 == r2 <==> c1 == c2,
{
    assert(t1.is_prefix_of(t2) || t1 == t2);
    if !t0.contains(c1) {
        assert forall|i: int, j: int| 0 <= i < j < t1.len() implies t1[i] != t1[j] by {
            if j == t0.len() {
                assert(t0[i] == t1[i]);
            }
        }
    }
    assert(distinct(t1));
    assert(t2[r1 as int] == c1);
}

/// An append-only table mapping composite keys to dense handles.
pub struct InternTable {
    items: Vec<(u32, u32, u32)>,
}

impl InternTable {
    /// The composites interned so far; the handle of `view()[i]` is `i`.
    pub closed spec fn view(&self) -> Seq<(u32, u32, u32)> {
        self.items@
    }

    /// No composite is stored twice.
    pub open spec fn wf(&self) -> bool {
        distinct(self@)
    }

    pub fn new() -> (r: Self)
        ensures
            r@ == Seq::<(u32, u32, u32)>::empty(),
            r.wf(),
    {
        InternTable { items: Vec::new() }
    }

    pub fn len(&self) -> (r: usize)
        ensures
            r == self@.len(),
    {
        self.items.len()
    }

    /// The handle issued for `key`, if it was interned.
    pub fn lookup(&self, handle: u32) -> (r: Option<(u32, u32, u32)>)
        ensures
            handle < self@.len() ==> r == Some(self@[handle as int]),
            handle >= self@.len() ==> r is None,
    {
        if (handle as usize) < self.items.len() {
            Some(self.items[handle as usize])
        } else {
            None
        }
    }

    /// Returns the handle of `key`, issuing a new one on first sight.
    pub fn intern(&mut self, key: (u32, u32, u32)) -> (r: u32)
        requires
            old(self).wf(),
            old(self)@.len() < u32::MAX,
        ensures
            final(self).wf(),
            r < final(self)@.len(),
            final(self)@[r as int] == key,
            old(self)@.contains(key) ==> final(self)@ == old(self)@,
            !old(self)@.contains(key) ==> final(self)@ == old(self)@.push(key),
            interned(old(self)@, key, final(self)@, r),
    {
        let mut i: usize = 0;
        while i < self.items.len()
            invariant
                0 <= i <= self.items@.len(),
                self.wf(),
                self@ == old(self)@,
                self@.len() < u32::MAX,
                forall|j: int| 0 <= j < i ==> self.items@[j] != key,
            decreases self.items@.len() - i,
        {
            if self.items[i].0 == key.0 && self.items[i].1 == key.1 && self.items[i].2 == key.2 {
                return i as u32;
            }
            i = i + 1;
        }
        let n = self.items.len();
        self.items.push(key);
        n as u32
    }
}

/// A definition that can be called: a function, or the constructor of a
/// struct or of an enum variant.
#[derive(Clone, Copy, Debug, PartialEq, Eq, Hash, Structural)]
pub enum CallableDefId {
    FunctionId(u32),
    StructId(u32),
    EnumVariantId(u32),
}

/// A definition that owns a body.
#[derive(Clone, Copy, Debug, PartialEq, Eq, Hash, Structural)]
pub enum DefWithBodyId {
    FunctionId(u32),
    StaticId(u32),
    ConstId(u32),
}

/// An expression inside a body.
#[derive(Clone, Copy, Debug, PartialEq, Eq, Hash, Structural)]
pub struct ExprId(pub u32);

/// A generic parameter, by its owner and its position there.
#[derive(Clone, Copy, Debug, PartialEq, Eq, Hash, Structural)]
pub struct TypeOrConstParamId {
    pub parent: u32,
    pub local_id: u32,
}

#[derive(Clone, Copy, Debug, PartialEq, Eq, Hash, Structural)]
pub struct LifetimeParamId {
    pub parent: u32,
    pub local_id: u32,
}

#[derive(Clone, Copy, Debug, PartialEq, Eq, Hash, Structural)]
pub struct ConstParamId {
    pub parent: u32,
    pub local_id: u32,
}

/// An `impl Trait` in return position: the function and its index there.
#[derive(Clone, Copy, Debug, PartialEq, Eq, Hash, Structural)]
pub struct ImplTraitId {
    pub func: u32,
    pub idx: u32,
}

#[derive(Clone, Copy, Debug, PartialEq, Eq, Hash, Structural)]
pub struct InternedTypeOrConstParamId(pub u32);

#[derive(Clone, Copy, Debug, PartialEq, Eq, Hash, Structural)]
pub struct InternedLifetimeParamId(pub u32);

#[derive(Clone, Copy, Debug, PartialEq, Eq, Hash, Structural)]
pub struct InternedConstParamId(pub u32);

#[derive(Clone, Copy, Debug, PartialEq, Eq, Hash, Structural)]
pub struct InternedOpaqueTyId(pub u32);

#[derive(Clone, Copy, Debug, PartialEq, Eq, Hash, Structural)]
pub struct InternedClosureId(pub u32);

/// One handle for every callable definition, whatever its kind.
#[derive(Clone, Copy, Debug, PartialEq, Eq, Hash, PartialOrd, Ord, Structural)]
pub struct InternedCallableDefId(pub u32);

pub open spec fn callable_key(c: CallableDefId) -> (u32, u32, u32) {
    match c {
        CallableDefId::FunctionId(f) => (0, f, 0),
        CallableDefId::StructId(s) => (1, s, 0),
        CallableDefId::EnumVariantId(v) => (2, v, 0),
    }
}

pub open spec fn callable_of(t: (u32, u32, u32)) -> CallableDefId {
    if t.0 == 0 {
        CallableDefId::FunctionId(t.1)
    } else if t.0 == 1 {
        CallableDefId::StructId(t.1)
    } else {
        CallableDefId::EnumVariantId(t.1)
    }
}

pub open spec fn closure_key(c: (DefWithBodyId, ExprId)) -> (u32, u32, u32) {
    match c.0 {
        DefWithBodyId::FunctionId(f) => (0, f, c.1.0),
        DefWithBodyId::StaticId(s) => (1, s, c.1.0),
        DefWithBodyId::ConstId(k) => (2, k, c.1.0),
    }
}

pub open spec fn closure_of(t: (u32, u32, u32)) -> (DefWithBodyId, ExprId) {
    let def = if t.0 == 0 {
        DefWithBodyId::FunctionId(t.1)
    } else if t.0 == 1 {
        DefWithBodyId::StaticId(t.1)
    } else {
        DefWithBodyId::ConstId(t.1)
    };
    (def, ExprId(t.2))
}

pub fn encode_callable(c: CallableDefId) -> (r: (u32, u32, u32))
    ensures
        r == callable_key(c),
        callable_of(r) == c,
{
    match c {
        CallableDefId::FunctionId(f) => (0, f, 0),
        CallableDefId::StructId(s) => (1, s, 0),
        CallableDefId::EnumVariantId(v) => (2, v, 0),
    }
}

pub fn decode_callable(t: (u32, u32, u32)) -> (r: CallableDefId)
    ensures
        r == callable_of(t),
{
    if t.0 == 0 {
        CallableDefId::FunctionId(t.1)
    } else if t.0 == 1 {
        CallableDefId::StructId(t.1)
    } else {
        CallableDefId::EnumVariantId(t.1)
    }
}

pub fn encode_closure(c: (DefWithBodyId, ExprId)) -> (r: (u32, u32, u32))
    ensures
        r == closure_key(c),
        closure_of(r) == c,
{
    match c.0 {
        DefWithBodyId::FunctionId(f) => (0, f, c.1.0),
        DefWithBodyId::StaticId(s) => (1, s, c.1.0),
        DefWithBodyId::ConstId(k) => (2, k, c.1.0),
    }
}

pub fn decode_closure(t: (u32, u32, u32)) -> (r: (DefWithBodyId, ExprId))
    ensures
        r == closure_of(t),
{
    let def = if t.0 == 0 {
        DefWithBodyId::FunctionId(t.1)
    } else if t.0 == 1 {
        DefWithBodyId::StaticId(t.1)
    } else {
        DefWithBodyId::ConstId(t.1)
    };
    (def, ExprId(t.2))
}

} // verus!
