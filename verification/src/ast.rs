//! The data model: interface declarations, implementation records and the
//! type expressions that appear in them, together with their mathematical
//! views.
//!
//! Identifiers are interned symbols (`Sym`).  Generated identifiers are kept
//! structurally distinct from user identifiers by the `Name` enum, which makes
//! collision freedom of the generated names a fact of the datatype rather
//! than a property of string concatenation.

use vstd::prelude::*;

verus! {

broadcast use {vstd::std_specs::vec::group_vec_axioms, vstd::seq::group_seq_axioms};

/// An interned user identifier.
pub type Sym = u64;

/// An identifier: either written by the user or derived by the elaboration,
/// tagged with the deterministic hygiene suffix.  Two names are equal exactly
/// when their constructors and fields are equal, so a generated name can
/// never collide with a user name.
#[derive(Clone, Copy, Debug, PartialEq, Eq, Structural, Hash)]
pub enum Name {
    /// An identifier as the user wrote it.
    User(Sym),
    /// The ranked variant of a participant interface.
    Ranked(Sym, u64),
    /// The fresh rank type parameter.
    RankParam(u64),
    /// The blanket type parameter of a delegating implementation.
    SelfParam(u64),
    /// The deferred expansion step of a standalone interface declaration.
    Temporal(Sym, u64),
    /// The entry point of the final elaboration step.
    FinalizeEntry,
    /// A generic parameter of a standalone declaration, renamed for
    /// hygiene.
    RenamedParam(Sym, u64),
}

/// Receiver kind of a method.
#[derive(Clone, Copy, Debug, PartialEq, Eq, Structural)]
pub enum Receiver {
    /// No receiver: an associated function.
    Static,
    /// `self`
    Owned,
    /// `&self`
    Ref,
    /// `&mut self`
    RefMut,
    /// `self: Box<Self>`
    Boxed,
}

/// What kind of associated item a declaration or body belongs to.
#[derive(Clone, Copy, Debug, PartialEq, Eq, Structural)]
pub enum ItemKind {
    /// A method with its receiver kind and number of non-receiver parameters.
    Method(Receiver, usize),
    /// An associated type.
    AssocType,
    /// An associated constant.
    AssocConst,
}

/// Kind of a generic parameter.
#[derive(Clone, Copy, Debug, PartialEq, Eq, Structural)]
pub enum ParamKind {
    Lifetime,
    Ty,
    Const,
}

/// A type expression, as far as the elaboration reads it: the unit type and
/// one-element tuples (the fuel numerals), named types with their argument
/// lists, lifetime and integer arguments, and an opaque leaf for everything
/// the elaboration only carries through.
pub enum TypeExpr {
    /// `()` — the sentinel rank.
    Unit,
    /// `(T,)` — one more layer of fuel around `T`.
    Wrap(Box<TypeExpr>),
    /// A possibly qualified named type with its generic arguments.
    Named(Path),
    /// A lifetime argument.
    Lifetime(Name),
    /// An integer argument of a const generic.
    Int(u64),
    /// A type the elaboration does not read.
    Opaque(Sym),
}

/// A path: an optional leading `::`, the segment identifiers, and the generic
/// arguments of the last segment.
pub struct Path {
    pub leading_colon: bool,
    pub segments: Vec<Name>,
    pub args: Vec<TypeExpr>,
}

/// A generic parameter of an interface declaration or implementation record.
pub struct GenericParam {
    pub kind: ParamKind,
    pub ident: Name,
    pub bounds: Vec<Path>,
}

/// A where-clause predicate: a dependency bound requiring that `subject`
/// satisfy every interface in `bounds`.
pub struct Predicate {
    pub subject: TypeExpr,
    pub bounds: Vec<Path>,
}

/// An associated item of an interface declaration: only the identity and the
/// shape are read, bodies and signatures are not interpreted.
#[derive(Clone, Copy, Debug, PartialEq, Eq, Structural)]
pub struct TraitItem {
    pub kind: ItemKind,
    pub ident: Name,
}

/// An interface declaration.
pub struct TraitDecl {
    pub ident: Name,
    pub params: Vec<GenericParam>,
    pub items: Vec<TraitItem>,
}

/// An associated item body of an implementation record.  The body itself is
/// an opaque code block, referenced by a symbol and never interpreted.
#[derive(Clone, Copy, Debug, PartialEq, Eq, Structural)]
pub struct ImplItem {
    pub kind: ItemKind,
    pub ident: Name,
    pub body: Sym,
}

/// An implementation record: a concrete target type, the interface it
/// implements with its arguments, its own generics, its dependency bounds and
/// its associated-item bodies.
pub struct ImplRecord {
    pub self_ty: TypeExpr,
    pub trait_path: Path,
    pub params: Vec<GenericParam>,
    pub preds: Vec<Predicate>,
    pub items: Vec<ImplItem>,
}

/// Mathematical view of a type expression.
#[verifier::ext_equal]
pub enum TypeV {
    Unit,
    Wrap(Box<TypeV>),
    Named(PathV),
    Lifetime(Name),
    Int(u64),
    Opaque(Sym),
}

/// Mathematical view of a path.
#[verifier::ext_equal]
pub struct PathV {
    pub leading_colon: bool,
    pub segments: Seq<Name>,
    pub args: Seq<TypeV>,
}

/// Mathematical view of a generic parameter.
#[verifier::ext_equal]
pub struct ParamV {
    pub kind: ParamKind,
    pub ident: Name,
    pub bounds: Seq<PathV>,
}

/// Mathematical view of a where-clause predicate.
#[verifier::ext_equal]
pub struct PredV {
    pub subject: TypeV,
    pub bounds: Seq<PathV>,
}

/// Mathematical view of an interface declaration.
#[verifier::ext_equal]
pub struct TraitDeclV {
    pub ident: Name,
    pub params: Seq<ParamV>,
    pub items: Seq<TraitItem>,
}

/// Mathematical view of an implementation record.
#[verifier::ext_equal]
pub struct ImplRecordV {
    pub self_ty: TypeV,
    pub trait_path: PathV,
    pub params: Seq<ParamV>,
    pub preds: Seq<PredV>,
    pub items: Seq<ImplItem>,
}

pub open spec fn type_view(t: TypeExpr) -> TypeV
    decreases t,
{
    match t {
        TypeExpr::Unit => TypeV::Unit,
        TypeExpr::Wrap(inner) => TypeV::Wrap(Box::new(type_view(*inner))),
        TypeExpr::Named(path) => TypeV::Named(path_view(path)),
        TypeExpr::Lifetime(n) => TypeV::Lifetime(n),
        TypeExpr::Int(k) => TypeV::Int(k),
        TypeExpr::Opaque(s) => TypeV::Opaque(s),
    }
}

pub open spec fn types_view(s: Seq<TypeExpr>) -> Seq<TypeV>
    decreases s,
{
    if s.len() == 0 {
        Seq::empty()
    } else {
        types_view(s.drop_last()).push(type_view(s.last()))
    }
}

pub open spec fn path_view(p: Path) -> PathV
    decreases p,
{
    PathV {
        leading_colon: p.leading_colon,
        segments: p.segments@,
        args: types_view(p.args@),
    }
}

/// `types_view` maps elementwise.
pub broadcast proof fn lemma_types_view(s: Seq<TypeExpr>)
    ensures
        (#[trigger] types_view(s)).len() == s.len(),
        forall|i: int| 0 <= i < s.len() ==> types_view(s)[i] == type_view(s[i]),
    decreases s,
{
    if s.len() > 0 {
        lemma_types_view(s.drop_last());
    }
}

impl View for TypeExpr {
    type V = TypeV;

    open spec fn view(&self) -> TypeV {
        type_view(*self)
    }
}

impl View for Path {
    type V = PathV;

    open spec fn view(&self) -> PathV {
        path_view(*self)
    }
}

/// Elementwise view of a bound list.
pub open spec fn paths_view(s: Seq<Path>) -> Seq<PathV> {
    Seq::new(s.len(), |i: int| path_view(s[i]))
}

impl View for GenericParam {
    type V = ParamV;

    open spec fn view(&self) -> ParamV {
        ParamV { kind: self.kind, ident: self.ident, bounds: paths_view(self.bounds@) }
    }
}

/// Elementwise view of a generic-parameter list.
pub open spec fn params_view(s: Seq<GenericParam>) -> Seq<ParamV> {
    Seq::new(s.len(), |i: int| s[i]@)
}

impl View for Predicate {
    type V = PredV;

    open spec fn view(&self) -> PredV {
        PredV { subject: self.subject@, bounds: paths_view(self.bounds@) }
    }
}

/// Elementwise view of a where clause.
pub open spec fn preds_view(s: Seq<Predicate>) -> Seq<PredV> {
    Seq::new(s.len(), |i: int| s[i]@)
}

impl View for TraitDecl {
    type V = TraitDeclV;

    open spec fn view(&self) -> TraitDeclV {
        TraitDeclV { ident: self.ident, params: params_view(self.params@), items: self.items@ }
    }
}

/// Elementwise view of a declaration list.
pub open spec fn traits_view(s: Seq<TraitDecl>) -> Seq<TraitDeclV> {
    Seq::new(s.len(), |i: int| s[i]@)
}

impl View for ImplRecord {
    type V = ImplRecordV;

    open spec fn view(&self) -> ImplRecordV {
        ImplRecordV {
            self_ty: self.self_ty@,
            trait_path: self.trait_path@,
            params: params_view(self.params@),
            preds: preds_view(self.preds@),
            items: self.items@,
        }
    }
}

/// Elementwise view of a record list.
pub open spec fn records_view(s: Seq<ImplRecord>) -> Seq<ImplRecordV> {
    Seq::new(s.len(), |i: int| s[i]@)
}

// ---------------------------------------------------------------------------
// Generated output
// ---------------------------------------------------------------------------

/// What a generated associated-item body does.
#[derive(Clone, Copy, Debug, PartialEq, Eq, Structural)]
pub enum GenBody {
    /// Forward to the corresponding item of the ranked bound at the initial
    /// rank (the delegating implementation).
    Forward,
    /// The user body, preceded — when the flag is set — by the write-once
    /// registration of this method's entry point in the trampoline table.
    User(Sym, bool),
    /// Read this method's trampoline slot and invoke the installed entry
    /// point with all arguments forwarded (sentinel rank, unbounded mode).
    TrampolineRead,
    /// Fail with the recursion-limit condition (sentinel rank, bounded mode).
    LimitFail,
    /// The user body copied through unchanged.
    Copied(Sym),
}

/// An associated item of a generated implementation.
#[derive(Clone, Copy, Debug, PartialEq, Eq, Structural)]
pub struct GenImplItem {
    pub kind: ItemKind,
    pub ident: Name,
    pub body: GenBody,
}

/// A generated implementation.
pub struct GenImpl {
    pub self_ty: TypeExpr,
    pub trait_path: Path,
    pub params: Vec<GenericParam>,
    pub preds: Vec<Predicate>,
    pub items: Vec<GenImplItem>,
}

/// One item of the generated unit.
pub enum GenItem {
    /// The rank-indexed variant of a participant interface.
    RankedTrait(TraitDecl),
    /// A delegating, rewritten or sentinel implementation.
    Impl(GenImpl),
}

/// A non-fatal diagnostic of the elaboration.
#[derive(Clone, Copy, Debug, PartialEq, Eq, Structural)]
pub enum Diag {
    /// The named participant has no implementation record and was dropped.
    NoImplementations(Name),
}

/// The generated unit: the shadowed interface names, whether the trampoline
/// support items are emitted, the generated items in order, and the
/// diagnostics.
pub struct GeneratedUnit {
    pub shadowed: Vec<Name>,
    pub trampoline_support: bool,
    pub items: Vec<GenItem>,
    pub diags: Vec<Diag>,
}

/// Mathematical view of a generated implementation.
#[verifier::ext_equal]
pub struct GenImplV {
    pub self_ty: TypeV,
    pub trait_path: PathV,
    pub params: Seq<ParamV>,
    pub preds: Seq<PredV>,
    pub items: Seq<GenImplItem>,
}

/// Mathematical view of a generated item.
#[verifier::ext_equal]
pub enum GenItemV {
    RankedTrait(TraitDeclV),
    Impl(GenImplV),
}

/// Mathematical view of the generated unit.
#[verifier::ext_equal]
pub struct UnitV {
    pub shadowed: Seq<Name>,
    pub trampoline_support: bool,
    pub items: Seq<GenItemV>,
    pub diags: Seq<Diag>,
}

impl View for GenImpl {
    type V = GenImplV;

    open spec fn view(&self) -> GenImplV {
        GenImplV {
            self_ty: self.self_ty@,
            trait_path: self.trait_path@,
            params: params_view(self.params@),
            preds: preds_view(self.preds@),
            items: self.items@,
        }
    }
}

impl View for GenItem {
    type V = GenItemV;

    open spec fn view(&self) -> GenItemV {
        match self {
            GenItem::RankedTrait(t) => GenItemV::RankedTrait(t@),
            GenItem::Impl(i) => GenItemV::Impl(i@),
        }
    }
}

/// Elementwise view of a generated item list.
pub open spec fn gen_items_view(s: Seq<GenItem>) -> Seq<GenItemV> {
    Seq::new(s.len(), |i: int| s[i]@)
}

impl View for GeneratedUnit {
    type V = UnitV;

    open spec fn view(&self) -> UnitV {
        UnitV {
            shadowed: self.shadowed@,
            trampoline_support: self.trampoline_support,
            items: gen_items_view(self.items@),
            diags: self.diags@,
        }
    }
}

// ---------------------------------------------------------------------------
// Copying
// ---------------------------------------------------------------------------

/// Copies a type expression; the copy has the same view.
pub fn clone_type(t: &TypeExpr) -> (r: TypeExpr)
    ensures
        r@ == t@,
    decreases t,
{
    match t {
        TypeExpr::Unit => TypeExpr::Unit,
        TypeExpr::Wrap(inner) => TypeExpr::Wrap(Box::new(clone_type(&**inner))),
        TypeExpr::Named(p) => TypeExpr::Named(clone_path(p)),
        TypeExpr::Lifetime(n) => TypeExpr::Lifetime(*n),
        TypeExpr::Int(k) => TypeExpr::Int(*k),
        TypeExpr::Opaque(s) => TypeExpr::Opaque(*s),
    }
}

/// Copies an argument list; the copy has the same view, elementwise.
pub fn clone_types(v: &Vec<TypeExpr>) -> (r: Vec<TypeExpr>)
    ensures
        types_view(r@) == types_view(v@),
    decreases v,
{
    let mut r: Vec<TypeExpr> = Vec::new();
    let mut i: usize = 0;
    while i < v.len()
        invariant
            i <= v.len(),
            r@.len() == i,
            forall|j: int| 0 <= j < i ==> type_view(r@[j]) == type_view(v@[j]),
        decreases v@.len() - i,
    {
        r.push(clone_type(&v[i]));
        i += 1;
    }
    proof {
        lemma_types_view(r@);
        lemma_types_view(v@);
        assert(types_view(r@) =~= types_view(v@));
    }
    r
}

/// Copies a path; the copy has the same view.
pub fn clone_path(p: &Path) -> (r: Path)
    ensures
        r@ == p@,
    decreases p,
{
    let r = Path {
        leading_colon: p.leading_colon,
        segments: p.segments.clone(),
        args: clone_types(&p.args),
    };
    proof {
        assert(r@ =~= p@);
    }
    r
}

/// Copies a bound list; the copy has the same view.
pub fn clone_paths(v: &Vec<Path>) -> (r: Vec<Path>)
    ensures
        paths_view(r@) == paths_view(v@),
{
    let mut r: Vec<Path> = Vec::new();
    let mut i: usize = 0;
    while i < v.len()
        invariant
            i <= v.len(),
            r@.len() == i,
            forall|j: int| 0 <= j < i ==> path_view(r@[j]) == path_view(v@[j]),
        decreases v@.len() - i,
    {
        r.push(clone_path(&v[i]));
        i += 1;
    }
    proof {
        assert(paths_view(r@) =~= paths_view(v@));
    }
    r
}

/// Copies a generic parameter; the copy has the same view.
pub fn clone_param(p: &GenericParam) -> (r: GenericParam)
    ensures
        r@ == p@,
{
    let r = GenericParam { kind: p.kind, ident: p.ident, bounds: clone_paths(&p.bounds) };
    proof {
        assert(r@ =~= p@);
    }
    r
}

/// Copies a generic-parameter list; the copy has the same view.
pub fn clone_params(v: &Vec<GenericParam>) -> (r: Vec<GenericParam>)
    ensures
        params_view(r@) == params_view(v@),
{
    let mut r: Vec<GenericParam> = Vec::new();
    let mut i: usize = 0;
    while i < v.len()
        invariant
            i <= v.len(),
            r@.len() == i,
            forall|j: int| 0 <= j < i ==> r@[j]@ == v@[j]@,
        decreases v@.len() - i,
    {
        r.push(clone_param(&v[i]));
        i += 1;
    }
    proof {
        assert(params_view(r@) =~= params_view(v@));
    }
    r
}

/// Copies a predicate; the copy has the same view.
pub fn clone_pred(p: &Predicate) -> (r: Predicate)
    ensures
        r@ == p@,
{
    let r = Predicate { subject: clone_type(&p.subject), bounds: clone_paths(&p.bounds) };
    proof {
        assert(r@ =~= p@);
    }
    r
}

/// Copies a where clause; the copy has the same view.
pub fn clone_preds(v: &Vec<Predicate>) -> (r: Vec<Predicate>)
    ensures
        preds_view(r@) == preds_view(v@),
{
    let mut r: Vec<Predicate> = Vec::new();
    let mut i: usize = 0;
    while i < v.len()
        invariant
            i <= v.len(),
            r@.len() == i,
            forall|j: int| 0 <= j < i ==> r@[j]@ == v@[j]@,
        decreases v@.len() - i,
    {
        r.push(clone_pred(&v[i]));
        i += 1;
    }
    proof {
        assert(preds_view(r@) =~= preds_view(v@));
    }
    r
}

/// Copies an interface declaration; the copy has the same view.
pub fn clone_trait_decl(t: &TraitDecl) -> (out: TraitDecl)
    ensures
        out@ == t@,
{
    let out = TraitDecl {
        ident: t.ident,
        params: clone_params(&t.params),
        items: t.items.clone(),
    };
    proof {
        assert(out@ =~= t@);
    }
    out
}

/// Copies an implementation record; the copy has the same view.
pub fn clone_record(r: &ImplRecord) -> (out: ImplRecord)
    ensures
        out@ == r@,
{
    let out = ImplRecord {
        self_ty: clone_type(&r.self_ty),
        trait_path: clone_path(&r.trait_path),
        params: clone_params(&r.params),
        preds: clone_preds(&r.preds),
        items: r.items.clone(),
    };
    proof {
        assert(out@ =~= r@);
    }
    out
}

} // verus!
