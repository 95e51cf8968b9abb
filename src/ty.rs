//! Type-system values: syntactic type references handed over by name
//! resolution, lowered types interned into dense handles, and the coarse
//! fingerprints that impl indices bucket by.
use vstd::prelude::*;

verus! {

/// A type as written in source, with names already resolved to ids.
pub enum TypeRef {
    Unit,
    /// A generic parameter of the enclosing definition, by position.
    Param(u32),
    /// A nominal type applied to arguments.
    Adt(u32, Vec<TypeRef>),
    /// A reference to a type alias.
    Alias(u32),
}

impl TypeRef {
    /// A copy of this type reference.
    pub fn copy(&self) -> (r: TypeRef)
        decreases self,
    {
        match self {
            TypeRef::Unit => TypeRef::Unit,
            TypeRef::Param(p) => TypeRef::Param(*p),
            TypeRef::Alias(d) => TypeRef::Alias(*d),
            TypeRef::Adt(a, args) => {
                let mut out: Vec<TypeRef> = Vec::new();
                let mut i: usize = 0;
                while i < args.len()
                    invariant
                        i <= args@.len(),
                        *self == TypeRef::Adt(*a, *args),
                    decreases args@.len() - i,
                {
                    proof {
                        vstd::std_specs::vec::axiom_vec_index_decreases(*args, i as int);
                        assert(decreases_to!(*self => self->Adt_1));
                        assert(decreases_to!(*self => args[i as int]));
                    }
                    out.push(args[i].copy());
                    i = i + 1;
                }
                TypeRef::Adt(*a, out)
            },
        }
    }
}

/// Handle of an interned type.
#[derive(Clone, Copy, Debug, PartialEq, Eq, Hash, Structural)]
pub struct TyId(pub u32);

/// The structure of one lowered type; arguments are handles.
pub enum TyData {
    Unit,
    Param(u32),
    Adt(u32, Vec<TyId>),
    /// The unknown type that failed lowering or a cycle produces.
    Error,
}

/// What a `TyData` holds, as a mathematical value.
pub enum TyShape {
    Unit,
    Param(u32),
    Adt(u32, Seq<TyId>),
    Error,
}

impl View for TyData {
    type V = TyShape;

    open spec fn view(&self) -> TyShape {
        match self {
            TyData::Unit => TyShape::Unit,
            TyData::Param(p) => TyShape::Param(*p),
            TyData::Adt(a, args) => TyShape::Adt(*a, args@),
            TyData::Error => TyShape::Error,
        }
    }
}

/// Coarse structural signature of a type: its head constructor.
#[derive(Clone, Copy, Debug, PartialEq, Eq, Hash, Structural)]
pub enum TyFingerprint {
    Unit,
    Adt(u32),
}

/// The fingerprint of a type of the given shape; parameters and unknown
/// types have none, so impls on them are candidates for every type.
pub open spec fn fingerprint_of(s: TyShape) -> Option<TyFingerprint> {
    match s {
        TyShape::Unit => Some(TyFingerprint::Unit),
        TyShape::Adt(a, _) => Some(TyFingerprint::Adt(a)),
        _ => None,
    }
}

pub fn copy_ids(v: &Vec<TyId>) -> (r: Vec<TyId>)
    ensures
        r@ == v@,
{
    let mut r: Vec<TyId> = Vec::new();
    let mut i: usize = 0;
    while i < v.len()
        invariant
            i <= v@.len(),
            r@ == v@.subrange(0, i as int),
        decreases v@.len() - i,
    {
        r.push(v[i]);
        i = i + 1;
    }
    assert(r@ =~= v@);
    r
}

fn same_ids(a: &Vec<TyId>, b: &Vec<TyId>) -> (r: bool)
    ensures
        r == (a@ == b@),
{
    if a.len() != b.len() {
        return false;
    }
    let mut i: usize = 0;
    while i < a.len()
        invariant
            a@.len() == b@.len(),
            i <= a@.len(),
            forall|j: int| 0 <= j < i ==> a@[j] == b@[j],
        decreases a@.len() - i,
    {
        if a[i] != b[i] {
            return false;
        }
        i = i + 1;
    }
    assert(a@ =~= b@);
    true
}

impl TyData {
    pub fn copy(&self) -> (r: TyData)
        ensures
            r@ == self@,
    {
        match self {
            TyData::Unit => TyData::Unit,
            TyData::Param(p) => TyData::Param(*p),
            TyData::Adt(a, args) => TyData::Adt(*a, copy_ids(args)),
            TyData::Error => TyData::Error,
        }
    }

    pub fn same(&self, other: &TyData) -> (r: bool)
        ensures
            r == (self@ == other@),
    {
        match (self, other) {
            (TyData::Unit, TyData::Unit) => true,
            (TyData::Param(p), TyData::Param(q)) => *p == *q,
            (TyData::Adt(a, xs), TyData::Adt(b, ys)) => *a == *b && same_ids(xs, ys),
            (TyData::Error, TyData::Error) => true,
            _ => false,
        }
    }

    pub fn fingerprint(&self) -> (r: Option<TyFingerprint>)
        ensures
            r == fingerprint_of(self@),
    {
        match self {
            TyData::Unit => Some(TyFingerprint::Unit),
            TyData::Adt(a, _) => Some(TyFingerprint::Adt(*a)),
            _ => None,
        }
    }
}

/// The session's type interner: every distinct type shape has one handle.
pub struct TyInterner {
    items: Vec<TyData>,
}

impl TyInterner {
    /// The shapes interned so far; the handle of `view()[i]` is `TyId(i)`.
    pub closed spec fn view(&self) -> Seq<TyShape> {
        self.items@.map_values(|d: TyData| d@)
    }

    pub open spec fn wf(&self) -> bool {
        &&& forall|i: int, j: int| 0 <= i < j < self@.len() ==> self@[i] != self@[j]
        &&& self@.len() <= u32::MAX
    }

    pub open spec fn has(&self, t: TyId) -> bool {
        t.0 < self@.len()
    }

    pub fn new() -> (r: Self)
        ensures
            r.wf(),
            r@.len() == 0,
    {
        TyInterner { items: Vec::new() }
    }

    pub fn len(&self) -> (r: usize)
        ensures
            r == self@.len(),
    {
        self.items.len()
    }

    pub fn lookup(&self, t: TyId) -> (r: &TyData)
        requires
            self.has(t),
        ensures
            r@ == self@[t.0 as int],
    {
        &self.items[t.0 as usize]
    }

    /// Returns the handle of a type of the given shape, issuing one on first sight.
    pub fn intern(&mut self, d: TyData) -> (r: Option<TyId>)
        requires
            old(self).wf(),
        ensures
            final(self).wf(),
            old(self)@.is_prefix_of(final(self)@),
            old(self)@.contains(d@) ==> final(self)@ == old(self)@,
            !old(self)@.contains(d@) && r is Some ==> final(self)@ == old(self)@.push(d@),
            r matches Some(t) ==> final(self).has(t) && final(self)@[t.0 as int] == d@,
            r is None ==> old(self)@.len() == u32::MAX && !old(self)@.contains(d@),
    {
        let mut i: usize = 0;
        while i < self.items.len()
            invariant
                0 <= i <= self@.len(),
                self.wf(),
                self@ == old(self)@,
                forall|j: int| 0 <= j < i ==> self@[j] != d@,
            decreases self@.len() - i,
        {
            if self.items[i].same(&d) {
                assert(self@[i as int] == d@);
                return Some(TyId(i as u32));
            }
            i = i + 1;
        }
        if self.items.len() >= u32::MAX as usize {
            assert(!self@.contains(d@));
            return None;
        }
        let n = self.items.len();
        self.items.push(d);
        assert(self@ =~= old(self)@.push(d@));
        Some(TyId(n as u32))
    }
}

} // verus!
