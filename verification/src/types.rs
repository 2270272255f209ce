//! The types of the IR: a table of type descriptions, each named by its
//! position, and the sizes that the Ola target gives them.

use vstd::prelude::*;

verus! {

/// A type of the IR, named by its position in the type table.
#[derive(Clone, Copy, Debug, PartialEq, Eq, Structural)]
pub struct Type(pub usize);

/// What a type is.
#[derive(Debug, PartialEq, Eq)]
pub enum TypeKind {
    /// No value.
    Void,
    /// An integer of the given number of bits.
    Int(u32),
    /// A pointer to a value of the given type.
    Pointer(Type),
    /// An array: the type of its elements and their number.
    Array(Type, u32),
    /// A function: the type it returns and the types of its parameters.
    Function(Type, Vec<Type>),
}

/// The model of a [`TypeKind`].
pub enum TypeKindView {
    Void,
    Int { bits: u32 },
    Pointer { pointee: Type },
    Array { elem: Type, len: u32 },
    Function { ret: Type, params: Seq<Type> },
}

impl View for TypeKind {
    type V = TypeKindView;

    open spec fn view(&self) -> TypeKindView {
        match self {
            TypeKind::Void => TypeKindView::Void,
            TypeKind::Int(bits) => TypeKindView::Int { bits: *bits },
            TypeKind::Pointer(pointee) => TypeKindView::Pointer { pointee: *pointee },
            TypeKind::Array(elem, len) => TypeKindView::Array { elem: *elem, len: *len },
            TypeKind::Function(ret, params) => TypeKindView::Function {
                ret: *ret,
                params: params@,
            },
        }
    }
}

impl DeepView for TypeKind {
    type V = TypeKindView;

    open spec fn deep_view(&self) -> TypeKindView {
        self@
    }
}

/// Size in bytes of a pointer on the Ola target.
pub const POINTER_SIZE: u64 = 8;

/// Whether each of `tys` stands among the first `n` of a table.
pub open spec fn spec_all_below(tys: Seq<Type>, n: int) -> bool {
    forall|k: int| 0 <= k < tys.len() ==> (#[trigger] tys[k]).0 < n
}

/// Whether every type that `kind` mentions stands among the first `n` of a
/// table.
pub open spec fn spec_refers_below(kind: TypeKindView, n: int) -> bool {
    match kind {
        TypeKindView::Void => true,
        TypeKindView::Int { .. } => true,
        TypeKindView::Pointer { pointee } => pointee.0 < n,
        TypeKindView::Array { elem, .. } => elem.0 < n,
        TypeKindView::Function { ret, params } => ret.0 < n && spec_all_below(params, n),
    }
}

/// A type table is well formed when each entry mentions only entries that
/// stand before it.
pub open spec fn spec_types_wf(types: Seq<TypeKindView>) -> bool {
    forall|i: int| 0 <= i < types.len() ==> spec_refers_below(#[trigger] types[i], i)
}

/// What `ty` is in the table, if it names an entry of it.
pub open spec fn spec_kind(types: Seq<TypeKindView>, ty: Type) -> Option<TypeKindView> {
    if ty.0 < types.len() {
        Some(types[ty.0 as int])
    } else {
        None
    }
}

/// Whether `ty` is an integer type.
pub open spec fn spec_is_integer(types: Seq<TypeKindView>, ty: Type) -> bool {
    spec_kind(types, ty) matches Some(TypeKindView::Int { .. })
}

/// Whether `ty` is a pointer type.
pub open spec fn spec_is_pointer(types: Seq<TypeKindView>, ty: Type) -> bool {
    spec_kind(types, ty) matches Some(TypeKindView::Pointer { .. })
}

/// The element type of an array type.
pub open spec fn spec_element(types: Seq<TypeKindView>, ty: Type) -> Option<Type> {
    match spec_kind(types, ty) {
        Some(TypeKindView::Array { elem, .. }) => Some(elem),
        _ => None,
    }
}

/// The type of one limb of a value of type `ty`: the element type of an
/// array, and for every other type the type itself.
pub open spec fn spec_limb_type(types: Seq<TypeKindView>, ty: Type) -> Type {
    match spec_element(types, ty) {
        Some(elem) => elem,
        None => ty,
    }
}

/// The number of limbs of a value of type `ty`: the length of an array, and
/// one for every other type.
pub open spec fn spec_limb_count(types: Seq<TypeKindView>, ty: Type) -> nat {
    match spec_kind(types, ty) {
        Some(TypeKindView::Array { len, .. }) => len as nat,
        _ => 1,
    }
}

/// The type that a call yields when its callee has type `ty`: the return type
/// of a function type, and for every other type the type itself.
pub open spec fn spec_return_type(types: Seq<TypeKindView>, ty: Type) -> Type {
    match spec_kind(types, ty) {
        Some(TypeKindView::Function { ret, .. }) => ret,
        _ => ty,
    }
}

/// `n`, or the largest `u64` where `n` is larger.
pub open spec fn spec_clamp_u64(n: int) -> int {
    if n > u64::MAX {
        u64::MAX as int
    } else {
        n
    }
}

/// Size in bytes of a value of type `ty` on the Ola target: the bytes that
/// hold an integer's bits, eight for a pointer, the elements' sizes together
/// for an array (at most the largest `u64`), nothing for anything else.
pub open spec fn spec_size_of(types: Seq<TypeKindView>, ty: Type) -> int
    decreases ty.0,
{
    match spec_kind(types, ty) {
        Some(TypeKindView::Int { bits }) => (bits + 7) / 8,
        Some(TypeKindView::Pointer { .. }) => POINTER_SIZE as int,
        Some(TypeKindView::Array { elem, len }) => if elem.0 < ty.0 {
            spec_clamp_u64(len * spec_size_of(types, elem))
        } else {
            0
        },
        _ => 0,
    }
}

/// Sizes are never negative and fit in a `u64`.
pub proof fn lemma_size_of_bounds(types: Seq<TypeKindView>, ty: Type)
    ensures
        0 <= spec_size_of(types, ty) <= u64::MAX,
    decreases ty.0,
{
    match spec_kind(types, ty) {
        Some(TypeKindView::Array { elem, len }) => {
            if elem.0 < ty.0 {
                lemma_size_of_bounds(types, elem);
                assert(0 <= len * spec_size_of(types, elem)) by (nonlinear_arith)
                    requires
                        0 <= len,
                        0 <= spec_size_of(types, elem),
                ;
            }
        },
        _ => {},
    }
}

/// Whether each of `tys` stands among the first `n` of a table.
fn all_below(tys: &Vec<Type>, n: usize) -> (below: bool)
    ensures
        below == spec_all_below(tys@, n as int),
{
    let mut k: usize = 0;
    while k < tys.len()
        invariant
            k <= tys.len(),
            forall|j: int| 0 <= j < k ==> (#[trigger] tys@[j]).0 < n,
        decreases tys.len() - k,
    {
        if tys[k].0 >= n {
            return false;
        }
        k += 1;
    }
    true
}

/// The type table of an IR module.
pub struct Types {
    kinds: Vec<TypeKind>,
}

impl View for Types {
    type V = Seq<TypeKindView>;

    closed spec fn view(&self) -> Seq<TypeKindView> {
        self.kinds.deep_view()
    }
}

impl Types {
    /// Whether the table is well formed.
    pub open spec fn wf(&self) -> bool {
        spec_types_wf(self@)
    }

    /// An empty table.
    pub fn new() -> (types: Self)
        ensures
            types@ == Seq::<TypeKindView>::empty(),
            types.wf(),
    {
        let types = Types { kinds: Vec::new() };
        assert(types@ =~= Seq::<TypeKindView>::empty());
        types
    }

    /// The number of types in the table.
    pub fn len(&self) -> (n: usize)
        ensures
            n == self@.len(),
    {
        self.kinds.len()
    }

    /// Whether every type that `kind` mentions is in the table.
    fn refers_to_known(&self, kind: &TypeKind) -> (known: bool)
        ensures
            known == spec_refers_below(kind@, self@.len() as int),
    {
        let n: usize = self.len();
        match kind {
            TypeKind::Void => true,
            TypeKind::Int(_) => true,
            TypeKind::Pointer(pointee) => pointee.0 < n,
            TypeKind::Array(elem, _) => elem.0 < n,
            TypeKind::Function(ret, params) => ret.0 < n && all_below(params, n),
        }
    }

    /// Adds a type to the table and returns its name. A type that mentions a
    /// type which is not in the table is refused, and the table stays as it
    /// was.
    pub fn add(&mut self, kind: TypeKind) -> (ty: Option<Type>)
        requires
            old(self).wf(),
        ensures
            final(self).wf(),
            spec_refers_below(kind@, old(self)@.len() as int) ==> ty == Some(
                Type(old(self)@.len() as usize),
            ) && final(self)@ == old(self)@.push(kind@),
            !spec_refers_below(kind@, old(self)@.len() as int) ==> ty.is_none() && final(self)@
                == old(self)@,
    {
        if !self.refers_to_known(&kind) {
            return None;
        }
        let ty = Type(self.kinds.len());
        self.kinds.push(kind);
        assert(self@ =~= old(self)@.push(kind@));
        Some(ty)
    }

    /// Whether `ty` is an integer type.
    pub fn is_integer(&self, ty: Type) -> (b: bool)
        ensures
            b == spec_is_integer(self@, ty),
    {
        if ty.0 < self.kinds.len() {
            match &self.kinds[ty.0] {
                TypeKind::Int(_) => true,
                _ => false,
            }
        } else {
            false
        }
    }

    /// Whether `ty` is a pointer type.
    pub fn is_pointer(&self, ty: Type) -> (b: bool)
        ensures
            b == spec_is_pointer(self@, ty),
    {
        if ty.0 < self.kinds.len() {
            match &self.kinds[ty.0] {
                TypeKind::Pointer(_) => true,
                _ => false,
            }
        } else {
            false
        }
    }

    /// The element type of an array type.
    pub fn element(&self, ty: Type) -> (elem: Option<Type>)
        ensures
            elem == spec_element(self@, ty),
    {
        if ty.0 < self.kinds.len() {
            match &self.kinds[ty.0] {
                TypeKind::Array(elem, _) => Some(*elem),
                _ => None,
            }
        } else {
            None
        }
    }

    /// The type of one limb of a value of type `ty`.
    pub fn limb_type(&self, ty: Type) -> (limb: Type)
        ensures
            limb == spec_limb_type(self@, ty),
    {
        match self.element(ty) {
            Some(elem) => elem,
            None => ty,
        }
    }

    /// The number of limbs of a value of type `ty`.
    pub fn limb_count(&self, ty: Type) -> (n: usize)
        ensures
            n == spec_limb_count(self@, ty),
    {
        if ty.0 < self.kinds.len() {
            match &self.kinds[ty.0] {
                TypeKind::Array(_, len) => *len as usize,
                _ => 1,
            }
        } else {
            1
        }
    }

    /// The type that a call yields when its callee has type `ty`.
    pub fn return_type(&self, ty: Type) -> (ret: Type)
        ensures
            ret == spec_return_type(self@, ty),
    {
        if ty.0 < self.kinds.len() {
            match &self.kinds[ty.0] {
                TypeKind::Function(ret, _) => *ret,
                _ => ty,
            }
        } else {
            ty
        }
    }

    /// Size in bytes of a value of type `ty` on the Ola target.
    pub fn size_of(&self, ty: Type) -> (size: u64)
        ensures
            size == spec_size_of(self@, ty),
        decreases ty.0,
    {
        if ty.0 >= self.kinds.len() {
            return 0;
        }
        match &self.kinds[ty.0] {
            TypeKind::Int(bits) => {
                let bits: u64 = *bits as u64;
                (bits + 7) / 8
            },
            TypeKind::Pointer(_) => POINTER_SIZE,
            TypeKind::Array(elem, len) => {
                if elem.0 < ty.0 {
                    let each: u64 = self.size_of(*elem);
                    let len: u64 = *len as u64;
                    match len.checked_mul(each) {
                        Some(all) => all,
                        None => u64::MAX,
                    }
                } else {
                    0
                }
            },
            _ => 0,
        }
    }
}

} // verus!
