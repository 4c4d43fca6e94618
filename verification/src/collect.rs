//! The graph collector: one grouping unit's members, partitioned.
//!
//! A grouping unit holds interface declarations opted into cycle breaking,
//! references to externally declared participants, implementation records
//! targeting participants, and unrelated members that are left untouched.
//! `process_module` partitions the members, assembles the engine's
//! arguments, and decides whether the engine can run directly — every
//! participant is local — or whether the accumulated state must travel the
//! chained call protocol through the deferred steps of the external
//! participants.

use vstd::prelude::*;

use crate::ast::{
    clone_path, clone_trait_decl, paths_view, records_view, traits_view, ImplRecord, Name, Path,
    PathV, Sym, TraitDecl,
};
use crate::engine::{bare_path, FinalizeArgs};
use crate::names::get_crate_identity;
use crate::payload::{version_of_this_build, Payload};

verus! {

broadcast use {vstd::std_specs::vec::group_vec_axioms, vstd::seq::group_seq_axioms};

/// A `use` declaration's tree of imported names.
pub enum UseTree {
    /// A path prefix: `prefix::rest`.
    Prefix(Name, Box<UseTree>),
    /// A plain imported name.
    Leaf(Name),
    /// An import under another name: the new name is what enters scope.
    Rename(Name, Name),
    /// A glob import, which the collector refuses.
    Glob,
    /// A braced group of subtrees.
    Group(Vec<UseTree>),
}

/// One member of a grouping unit.  Only the attribute paths the collector
/// reads are modelled; bodies stay opaque.
pub enum ModItem {
    /// An interface declaration, with its attribute paths.
    TraitDef { attrs: Vec<Path>, decl: TraitDecl },
    /// An interface alias, with its attribute paths.
    TraitAlias { attrs: Vec<Path>, ident: Name },
    /// A `use` declaration, with its attribute paths.
    UseDecl { attrs: Vec<Path>, tree: UseTree },
    /// An implementation record.
    ImplDef { record: ImplRecord },
    /// A nested module, whose members may not opt into cycle breaking.
    SubMod { items: Vec<ModItem> },
    /// A macro invocation, which the collector refuses.
    MacroDef,
    /// Any other member, left untouched.
    Other(Sym),
}

/// A failure of the collector.
#[derive(Clone, Copy, Debug, PartialEq, Eq, Structural)]
pub enum CollectError {
    /// A marked `use` declaration imports by glob.
    GlobInUse,
    /// A nested module carries the group marker.
    NestedGroupMarker,
    /// The unit holds a macro invocation.
    MacroUnsupported,
    /// No member of the unit is marked for cycle breaking.
    NothingMarked,
}

// ---------------------------------------------------------------------------
// Recognising the group marker
// ---------------------------------------------------------------------------

/// Is `alias` a rename of the system's own crate in the enclosing manifest?
pub open spec fn renamed_crate(renames: Seq<(Sym, Sym)>, alias: Name, dsym: Sym) -> bool {
    exists|i: int|
        0 <= i < renames.len() && #[trigger] renames[i] == (alias->User_0, dsym) && alias is User
}

/// Does this attribute path name the group marker?  Either the bare marker
/// name, or the marker qualified by the system's crate — under its own name
/// or a manifest rename.
pub open spec fn is_marker_path(p: Path, dsym: Sym, renames: Seq<(Sym, Sym)>) -> bool {
    ||| (p.segments@.len() == 1 && p.segments@[0] == Name::User(dsym))
    ||| (p.segments@.len() == 2 && p.segments@[1] == Name::User(dsym) && (p.segments@[0]
        == Name::User(dsym) || renamed_crate(renames, p.segments@[0], dsym)))
}

/// Does any of these attribute paths carry the group marker?
pub open spec fn attrs_marked(attrs: Seq<Path>, dsym: Sym, renames: Seq<(Sym, Sym)>) -> bool {
    exists|i: int| 0 <= i < attrs.len() && is_marker_path(#[trigger] attrs[i], dsym, renames)
}

/// Whether one rename entry of the manifest maps `alias` to the system's
/// crate.  Relies only on the rename entries handed in; reading the
/// manifest text is the caller's concern.
pub fn is_renamed_decycle_crate(alias: Name, dsym: Sym, renames: &Vec<(Sym, Sym)>) -> (r: bool)
    ensures
        r == renamed_crate(renames@, alias, dsym),
{
    let a = match alias {
        Name::User(s) => s,
        _ => {
            proof {
                assert(!renamed_crate(renames@, alias, dsym));
            }
            return false;
        },
    };
    let mut i: usize = 0;
    while i < renames.len()
        invariant
            i <= renames@.len(),
            alias == Name::User(a),
            forall|j: int| 0 <= j < i ==> #[trigger] renames@[j] != (a, dsym),
        decreases renames@.len() - i,
    {
        let (al, pk) = renames[i];
        if al == a && pk == dsym {
            return true;
        }
        i += 1;
    }
    false
}

/// Does this attribute path name the group marker?
pub fn is_decycle_attribute(attr: &Path, dsym: Sym, renames: &Vec<(Sym, Sym)>) -> (r: bool)
    ensures
        r == is_marker_path(*attr, dsym, renames@),
{
    if attr.segments.len() == 1 {
        attr.segments[0] == Name::User(dsym)
    } else if attr.segments.len() == 2 {
        attr.segments[1] == Name::User(dsym) && (attr.segments[0] == Name::User(dsym)
            || is_renamed_decycle_crate(attr.segments[0], dsym, renames))
    } else {
        false
    }
}

/// Does any of these attribute paths carry the group marker?
fn any_marker(attrs: &Vec<Path>, dsym: Sym, renames: &Vec<(Sym, Sym)>) -> (r: bool)
    ensures
        r == attrs_marked(attrs@, dsym, renames@),
{
    let mut i: usize = 0;
    while i < attrs.len()
        invariant
            i <= attrs@.len(),
            forall|j: int| 0 <= j < i ==> !is_marker_path(#[trigger] attrs@[j], dsym, renames@),
        decreases attrs@.len() - i,
    {
        if is_decycle_attribute(&attrs[i], dsym, renames) {
            return true;
        }
        i += 1;
    }
    false
}

// ---------------------------------------------------------------------------
// Use trees
// ---------------------------------------------------------------------------

/// Does the tree import by glob anywhere?
pub open spec fn tree_has_glob(t: UseTree) -> bool
    decreases t,
{
    match t {
        UseTree::Prefix(_, rest) => tree_has_glob(*rest),
        UseTree::Leaf(_) => false,
        UseTree::Rename(_, _) => false,
        UseTree::Glob => true,
        UseTree::Group(ts) => exists|i: int|
            0 <= i < ts@.len() && tree_has_glob(#[trigger] ts@[i]),
    }
}

/// The interface names a use tree brings into scope, each as a bare path.
pub open spec fn tree_paths(t: UseTree) -> Seq<PathV>
    decreases t,
{
    match t {
        UseTree::Prefix(_, rest) => tree_paths(*rest),
        UseTree::Leaf(n) => seq![bare_path(n)],
        UseTree::Rename(_, n) => seq![bare_path(n)],
        UseTree::Glob => Seq::empty(),
        UseTree::Group(ts) => tree_paths_of(ts@),
    }
}

/// Elementwise concatenation of a group's subtrees.
pub open spec fn tree_paths_of(ts: Seq<UseTree>) -> Seq<PathV>
    decreases ts,
{
    if ts.len() == 0 {
        Seq::empty()
    } else {
        tree_paths_of(ts.drop_last()) + tree_paths(ts.last())
    }
}

/// Extracts the participant references of one marked alias or `use`
/// member: each imported name becomes a bare path; a glob import is
/// refused, since it cannot name the participants it brings in.
pub fn process_trait_path(tree: &UseTree) -> (r: Result<Vec<Path>, CollectError>)
    ensures
        r is Ok <==> !tree_has_glob(*tree),
        r matches Ok(ps) ==> paths_view(ps@) == tree_paths(*tree),
        r matches Err(e) ==> e == CollectError::GlobInUse,
    decreases *tree,
{
    match tree {
        UseTree::Prefix(_, rest) => process_trait_path(&**rest),
        UseTree::Leaf(n) => {
            let mut ps: Vec<Path> = Vec::new();
            ps.push(crate::engine::ident_to_path(*n));
            proof {
                assert(paths_view(ps@) =~= seq![bare_path(*n)]);
            }
            Ok(ps)
        },
        UseTree::Rename(_, n) => {
            let mut ps: Vec<Path> = Vec::new();
            ps.push(crate::engine::ident_to_path(*n));
            proof {
                assert(paths_view(ps@) =~= seq![bare_path(*n)]);
            }
            Ok(ps)
        },
        UseTree::Glob => Err(CollectError::GlobInUse),
        UseTree::Group(ts) => {
            let r = process_tree_group(ts);
            proof {
                match r {
                    Result::Ok(_) => {
                        assert(!tree_has_glob(*tree));
                    },
                    Result::Err(_) => {
                        let i = choose|i: int|
                            0 <= i < ts@.len() && tree_has_glob(#[trigger] ts@[i]);
                        assert(tree_has_glob(*tree));
                    },
                }
            }
            r
        },
    }
}

/// Extracts the participant references of every subtree of a group, in
/// order.
fn process_tree_group(ts: &Vec<UseTree>) -> (r: Result<Vec<Path>, CollectError>)
    ensures
        r is Ok <==> !(exists|i: int| 0 <= i < ts@.len() && tree_has_glob(#[trigger] ts@[i])),
        r matches Ok(ps) ==> paths_view(ps@) == tree_paths_of(ts@),
        r matches Err(e) ==> e == CollectError::GlobInUse,
    decreases *ts,
{
    let mut ps: Vec<Path> = Vec::new();
    let mut i: usize = 0;
    while i < ts.len()
        invariant
            i <= ts@.len(),
            forall|j: int| 0 <= j < i ==> !tree_has_glob(#[trigger] ts@[j]),
            paths_view(ps@) =~= tree_paths_of(ts@.take(i as int)),
        decreases ts@.len() - i,
    {
        proof {
            assert(ts@.take(i as int + 1).drop_last() =~= ts@.take(i as int));
            assert(ts@.take(i as int + 1).last() == ts@[i as int]);
        }
        let ghost pre = paths_view(ps@);
        match process_trait_path(&ts[i]) {
            Ok(sub) => {
                let mut si: usize = 0;
                let ghost subv = paths_view(sub@);
                while si < sub.len()
                    invariant
                        si <= sub@.len(),
                        subv == paths_view(sub@),
                        paths_view(ps@) =~= pre + subv.take(si as int),
                    decreases sub@.len() - si,
                {
                    proof {
                        assert(subv.take(si as int + 1).drop_last() =~= subv.take(si as int));
                        assert(subv.take(si as int + 1).last() == subv[si as int]);
                    }
                    let ghost mid = paths_view(ps@);
                    ps.push(clone_path(&sub[si]));
                    proof {
                        assert(paths_view(ps@) =~= mid.push(subv[si as int]));
                    }
                    si += 1;
                }
                proof {
                    assert(subv.take(subv.len() as int) =~= subv);
                }
            },
            Err(e) => {
                return Err(e);
            },
        }
        i += 1;
    }
    proof {
        assert(ts@.take(ts@.len() as int) =~= ts@);
    }
    Ok(ps)
}

// ---------------------------------------------------------------------------
// What the unit contributes
// ---------------------------------------------------------------------------

/// The marked interface declarations of the unit, in order.
pub open spec fn marked_traits(items: Seq<ModItem>, dsym: Sym, renames: Seq<(Sym, Sym)>) -> Seq<
    TraitDecl,
>
    decreases items,
{
    if items.len() == 0 {
        Seq::empty()
    } else {
        let rest = marked_traits(items.drop_last(), dsym, renames);
        match items.last() {
            ModItem::TraitDef { attrs, decl } => if attrs_marked(attrs@, dsym, renames) {
                rest.push(decl)
            } else {
                rest
            },
            _ => rest,
        }
    }
}

/// The deferred participant references of the unit: the names brought in by
/// marked aliases and marked `use` declarations, in order.
pub open spec fn marked_working(items: Seq<ModItem>, dsym: Sym, renames: Seq<(Sym, Sym)>) -> Seq<
    PathV,
>
    decreases items,
{
    if items.len() == 0 {
        Seq::empty()
    } else {
        let rest = marked_working(items.drop_last(), dsym, renames);
        match items.last() {
            ModItem::TraitAlias { attrs, ident } => if attrs_marked(attrs@, dsym, renames) {
                rest.push(bare_path(ident))
            } else {
                rest
            },
            ModItem::UseDecl { attrs, tree } => if attrs_marked(attrs@, dsym, renames) {
                rest + tree_paths(tree)
            } else {
                rest
            },
            _ => rest,
        }
    }
}

/// Does a marked `use` declaration of the unit import by glob?
pub open spec fn marked_glob(items: Seq<ModItem>, dsym: Sym, renames: Seq<(Sym, Sym)>) -> bool {
    exists|i: int|
        0 <= i < items.len() && match #[trigger] items[i] {
            ModItem::UseDecl { attrs, tree } => attrs_marked(attrs@, dsym, renames)
                && tree_has_glob(tree),
            _ => false,
        }
}

/// Does this member carry the group marker, anywhere inside it?
pub open spec fn item_has_marker_deep(it: ModItem, dsym: Sym, renames: Seq<(Sym, Sym)>) -> bool
    decreases it,
{
    match it {
        ModItem::TraitDef { attrs, .. } => attrs_marked(attrs@, dsym, renames),
        ModItem::TraitAlias { attrs, .. } => attrs_marked(attrs@, dsym, renames),
        ModItem::UseDecl { attrs, .. } => attrs_marked(attrs@, dsym, renames),
        ModItem::SubMod { items } => items_have_marker_deep(items@, dsym, renames),
        _ => false,
    }
}

/// Does any of these members carry the group marker, anywhere inside?
pub open spec fn items_have_marker_deep(
    items: Seq<ModItem>,
    dsym: Sym,
    renames: Seq<(Sym, Sym)>,
) -> bool
    decreases items,
{
    if items.len() == 0 {
        false
    } else {
        items_have_marker_deep(items.drop_last(), dsym, renames) || item_has_marker_deep(
            items.last(),
            dsym,
            renames,
        )
    }
}

/// The first refusal the collector's structural scan reports: a nested
/// module carrying the marker, or a macro invocation, whichever stands
/// first.
pub open spec fn structural_refusal(
    items: Seq<ModItem>,
    dsym: Sym,
    renames: Seq<(Sym, Sym)>,
) -> Option<CollectError>
    decreases items,
{
    if items.len() == 0 {
        None
    } else {
        match items.first() {
            ModItem::SubMod { items: sub } => if items_have_marker_deep(sub@, dsym, renames) {
                Some(CollectError::NestedGroupMarker)
            } else {
                structural_refusal(items.drop_first(), dsym, renames)
            },
            ModItem::MacroDef => Some(CollectError::MacroUnsupported),
            _ => structural_refusal(items.drop_first(), dsym, renames),
        }
    }
}

/// Is `n` the name of a participant of this unit — a marked local
/// declaration or the last segment of a deferred reference?
pub open spec fn in_all_traits(
    n: Name,
    items: Seq<ModItem>,
    dsym: Sym,
    renames: Seq<(Sym, Sym)>,
) -> bool {
    ||| (exists|j: int|
        0 <= j < marked_traits(items, dsym, renames).len() && (#[trigger] marked_traits(
            items,
            dsym,
            renames,
        )[j]).ident == n)
    ||| (exists|j: int|
        0 <= j < marked_working(items, dsym, renames).len() && (#[trigger] marked_working(
            items,
            dsym,
            renames,
        )[j]).segments.len() > 0 && marked_working(items, dsym, renames)[j].segments.last() == n)
}

/// Is this member an implementation record of one of the unit's
/// participants?
pub open spec fn is_group_impl(
    it: ModItem,
    full: Seq<ModItem>,
    dsym: Sym,
    renames: Seq<(Sym, Sym)>,
) -> bool {
    match it {
        ModItem::ImplDef { record } => record.trait_path.segments@.len() == 1 && in_all_traits(
            record.trait_path.segments@[0],
            full,
            dsym,
            renames,
        ),
        _ => false,
    }
}

/// The participants' implementation records of the unit, in order.
pub open spec fn group_records(
    items: Seq<ModItem>,
    full: Seq<ModItem>,
    dsym: Sym,
    renames: Seq<(Sym, Sym)>,
) -> Seq<ImplRecord>
    decreases items,
{
    if items.len() == 0 {
        Seq::empty()
    } else {
        let rest = group_records(items.drop_last(), full, dsym, renames);
        if is_group_impl(items.last(), full, dsym, renames) {
            rest.push(items.last()->ImplDef_record)
        } else {
            rest
        }
    }
}

/// The members the collector leaves untouched: everything that is not a
/// participant's implementation record.
pub open spec fn raw_items(
    items: Seq<ModItem>,
    full: Seq<ModItem>,
    dsym: Sym,
    renames: Seq<(Sym, Sym)>,
) -> Seq<ModItem>
    decreases items,
{
    if items.len() == 0 {
        Seq::empty()
    } else {
        let rest = raw_items(items.drop_last(), full, dsym, renames);
        if is_group_impl(items.last(), full, dsym, renames) {
            rest
        } else {
            rest.push(items.last())
        }
    }
}

/// The attribute list with its first group marker removed; the other
/// attributes keep their order.
pub open spec fn without_first_marker(
    attrs: Seq<Path>,
    dsym: Sym,
    renames: Seq<(Sym, Sym)>,
) -> Seq<Path>
    decreases attrs.len(),
{
    if attrs.len() == 0 {
        Seq::empty()
    } else if is_marker_path(attrs.first(), dsym, renames) {
        attrs.drop_first()
    } else {
        seq![attrs.first()] + without_first_marker(attrs.drop_first(), dsym, renames)
    }
}

/// Relates a re-emitted member to its source: a member that can carry the
/// group marker is re-emitted with its first marker attribute removed and
/// everything else unchanged; any other member is re-emitted exactly.
pub open spec fn marker_stripped(
    orig: ModItem,
    out: ModItem,
    dsym: Sym,
    renames: Seq<(Sym, Sym)>,
) -> bool {
    match orig {
        ModItem::TraitDef { attrs, decl } => out matches ModItem::TraitDef {
            attrs: a1,
            decl: d1,
        } && d1 == decl && a1@ == without_first_marker(attrs@, dsym, renames),
        ModItem::TraitAlias { attrs, ident } => out matches ModItem::TraitAlias {
            attrs: a1,
            ident: i1,
        } && i1 == ident && a1@ == without_first_marker(attrs@, dsym, renames),
        ModItem::UseDecl { attrs, tree } => out matches ModItem::UseDecl {
            attrs: a1,
            tree: t1,
        } && t1 == tree && a1@ == without_first_marker(attrs@, dsym, renames),
        _ => out == orig,
    }
}

/// Removes the first group marker from an attribute list, keeping every
/// other attribute in order.
fn strip_first_marker(attrs: Vec<Path>, dsym: Sym, renames: &Vec<(Sym, Sym)>) -> (r: Vec<Path>)
    ensures
        r@ == without_first_marker(attrs@, dsym, renames@),
{
    let ghost src = attrs@;
    let mut rem = attrs;
    let mut out: Vec<Path> = Vec::new();
    let mut removed = false;
    proof {
        assert(without_first_marker(src, dsym, renames@) =~= out@ + without_first_marker(
            rem@,
            dsym,
            renames@,
        ));
    }
    while rem.len() > 0
        invariant
            without_first_marker(src, dsym, renames@) =~= out@ + (if removed {
                rem@
            } else {
                without_first_marker(rem@, dsym, renames@)
            }),
        decreases rem@.len(),
    {
        let ghost pre_rem = rem@;
        let ghost pre_out = out@;
        let a = rem.remove(0);
        proof {
            assert(a == pre_rem.first());
            assert(rem@ =~= pre_rem.drop_first());
        }
        if !removed && is_decycle_attribute(&a, dsym, renames) {
            removed = true;
            proof {
                assert(without_first_marker(pre_rem, dsym, renames@) == pre_rem.drop_first());
            }
        } else {
            out.push(a);
            proof {
                if removed {
                    assert(pre_out + pre_rem =~= out@ + rem@);
                } else {
                    assert(without_first_marker(pre_rem, dsym, renames@) =~= seq![
                        pre_rem.first(),
                    ] + without_first_marker(pre_rem.drop_first(), dsym, renames@));
                    assert(pre_out + without_first_marker(pre_rem, dsym, renames@) =~= out@
                        + without_first_marker(rem@, dsym, renames@));
                }
            }
        }
    }
    proof {
        assert(rem@ =~= Seq::<Path>::empty());
        assert(without_first_marker(src, dsym, renames@) =~= out@);
    }
    out
}

/// The path of the final elaboration step, under the system's own path.
pub open spec fn finalize_path_v(decycle: PathV) -> PathV {
    PathV {
        leading_colon: decycle.leading_colon,
        segments: decycle.segments.push(Name::FinalizeEntry),
        args: decycle.args,
    }
}

// ---------------------------------------------------------------------------
// Structural checks
// ---------------------------------------------------------------------------

/// Does this member carry the group marker anywhere inside it?
fn item_marker_deep(it: &ModItem, dsym: Sym, renames: &Vec<(Sym, Sym)>) -> (r: bool)
    ensures
        r == item_has_marker_deep(*it, dsym, renames@),
    decreases *it,
{
    match it {
        ModItem::TraitDef { attrs, .. } => any_marker(attrs, dsym, renames),
        ModItem::TraitAlias { attrs, .. } => any_marker(attrs, dsym, renames),
        ModItem::UseDecl { attrs, .. } => any_marker(attrs, dsym, renames),
        ModItem::SubMod { items } => check_submodule(items, dsym, renames),
        _ => false,
    }
}

/// Does any member of a nested module carry the group marker?  A nested
/// module may not opt into cycle breaking.
pub fn check_submodule(items: &Vec<ModItem>, dsym: Sym, renames: &Vec<(Sym, Sym)>) -> (r: bool)
    ensures
        r == items_have_marker_deep(items@, dsym, renames@),
    decreases *items,
{
    let mut i: usize = 0;
    while i < items.len()
        invariant
            i <= items@.len(),
            !items_have_marker_deep(items@.take(i as int), dsym, renames@),
        decreases items@.len() - i,
    {
        proof {
            assert(items@.take(i as int + 1).drop_last() =~= items@.take(i as int));
            assert(items@.take(i as int + 1).last() == items@[i as int]);
        }
        if item_marker_deep(&items[i], dsym, renames) {
            proof {
                lemma_marker_deep_prefix(items@, dsym, renames@, i as int + 1);
            }
            return true;
        }
        i += 1;
    }
    proof {
        assert(items@.take(items@.len() as int) =~= items@);
    }
    false
}

/// A marker found in a prefix is a marker found in the whole list.
proof fn lemma_marker_deep_prefix(items: Seq<ModItem>, dsym: Sym, renames: Seq<(Sym, Sym)>, k: int)
    requires
        0 <= k <= items.len(),
        items_have_marker_deep(items.take(k), dsym, renames),
    ensures
        items_have_marker_deep(items, dsym, renames),
    decreases items.len() - k,
{
    if k < items.len() {
        assert(items.take(k + 1).drop_last() =~= items.take(k));
        lemma_marker_deep_prefix(items, dsym, renames, k + 1);
    } else {
        assert(items.take(k) =~= items);
    }
}

// ---------------------------------------------------------------------------
// The collector
// ---------------------------------------------------------------------------

/// Appends copies of the given participant references.
fn append_paths(dst: &mut Vec<Path>, src: &Vec<Path>)
    ensures
        paths_view(final(dst)@) == paths_view(old(dst)@) + paths_view(src@),
{
    let ghost pre = paths_view(dst@);
    let ghost srcv = paths_view(src@);
    let mut i: usize = 0;
    while i < src.len()
        invariant
            i <= src@.len(),
            pre == paths_view(old(dst)@),
            srcv == paths_view(src@),
            paths_view(dst@) =~= pre + srcv.take(i as int),
        decreases src@.len() - i,
    {
        proof {
            assert(srcv.take(i as int + 1).drop_last() =~= srcv.take(i as int));
            assert(srcv.take(i as int + 1).last() == srcv[i as int]);
        }
        let ghost mid = paths_view(dst@);
        dst.push(clone_path(&src[i]));
        proof {
            assert(paths_view(dst@) =~= mid.push(srcv[i as int]));
        }
        i += 1;
    }
    proof {
        assert(srcv.take(srcv.len() as int) =~= srcv);
    }
}

/// Is `n` the identity of an extracted local participant or the last
/// segment of an extracted deferred reference?
fn name_in_group(n: Name, traits: &Vec<TraitDecl>, working: &Vec<Path>) -> (r: bool)
    ensures
        r == ((exists|j: int| 0 <= j < traits@.len() && (#[trigger] traits@[j]).ident == n)
            || (exists|j: int|
            0 <= j < working@.len() && (#[trigger] working@[j]).segments@.len() > 0
                && working@[j].segments@.last() == n)),
{
    let mut j: usize = 0;
    while j < traits.len()
        invariant
            j <= traits@.len(),
            forall|i: int| 0 <= i < j ==> (#[trigger] traits@[i]).ident != n,
        decreases traits@.len() - j,
    {
        if traits[j].ident == n {
            return true;
        }
        j += 1;
    }
    let mut j: usize = 0;
    while j < working.len()
        invariant
            j <= working@.len(),
            forall|i: int|
                0 <= i < j ==> !((#[trigger] working@[i]).segments@.len() > 0
                    && working@[i].segments@.last() == n),
        decreases working@.len() - j,
    {
        let w = &working[j];
        if w.segments.len() > 0 && w.segments[w.segments.len() - 1] == n {
            return true;
        }
        j += 1;
    }
    false
}

/// What the collector hands on: either the engine's arguments, ready for a
/// direct elaboration because every participant is local, or the first
/// deferred step of the chained protocol together with the payload to give
/// it.
pub enum CollectorCall {
    Direct(FinalizeArgs),
    Chained(Path, Payload),
}

/// The collector's result: the untouched members, and the call to make.
pub struct CollectorOutput {
    pub raw: Vec<ModItem>,
    pub call: CollectorCall,
}

/// Partitions the members of one grouping unit, assembles the engine's
/// arguments, and decides between a direct elaboration and the chained
/// protocol.  Refused: a glob import in a marked `use` declaration, the
/// group marker inside a nested module, a macro invocation among the
/// members, and a unit in which nothing is marked.
#[verifier::loop_isolation(false)]
#[verifier::rlimit(60)]
pub fn process_module(
    items: Vec<ModItem>,
    decycle: &Path,
    dsym: Sym,
    renames: &Vec<(Sym, Sym)>,
    recurse_level: usize,
    support_infinite_cycle: bool,
) -> (r: Result<CollectorOutput, CollectError>)
    ensures
        r matches Err(e) ==> match e {
            CollectError::GlobInUse => marked_glob(items@, dsym, renames@),
            CollectError::NestedGroupMarker => !marked_glob(items@, dsym, renames@)
                && structural_refusal(items@, dsym, renames@) == Some(
                CollectError::NestedGroupMarker,
            ),
            CollectError::MacroUnsupported => !marked_glob(items@, dsym, renames@)
                && structural_refusal(items@, dsym, renames@) == Some(
                CollectError::MacroUnsupported,
            ),
            CollectError::NothingMarked => !marked_glob(items@, dsym, renames@)
                && structural_refusal(items@, dsym, renames@) is None && marked_traits(
                items@,
                dsym,
                renames@,
            ).len() == 0 && marked_working(items@, dsym, renames@).len() == 0,
        },
        r is Ok <==> (!marked_glob(items@, dsym, renames@) && structural_refusal(
            items@,
            dsym,
            renames@,
        ) is None && (marked_traits(items@, dsym, renames@).len() > 0 || marked_working(
            items@,
            dsym,
            renames@,
        ).len() > 0)),
        r matches Ok(out) ==> {
            &&& out.raw@.len() == raw_items(items@, items@, dsym, renames@).len()
            &&& forall|j: int|
                0 <= j < out.raw@.len() ==> marker_stripped(
                    raw_items(items@, items@, dsym, renames@)[j],
                    #[trigger] out.raw@[j],
                    dsym,
                    renames@,
                )
            &&& (out.call is Direct <==> marked_working(items@, dsym, renames@).len() == 0)
            &&& match out.call {
                CollectorCall::Direct(args) => {
                    &&& paths_view(args.working_list@) == marked_working(
                        items@,
                        dsym,
                        renames@,
                    ).push(finalize_path_v(decycle@))
                    &&& traits_view(args.traits@) == traits_view(
                        marked_traits(items@, dsym, renames@),
                    )
                    &&& args.contents@ == group_records(items@, items@, dsym, renames@)
                    &&& args.recurse_level == recurse_level
                    &&& args.support_infinite_cycle == support_infinite_cycle
                },
                CollectorCall::Chained(first, p) => {
                    &&& first@ == marked_working(items@, dsym, renames@)[0]
                    &&& p.version == crate::payload::current_version()
                    &&& p.identity@ == crate::names::crate_identity_bytes()
                    &&& paths_view(p.working_list@) == marked_working(items@, dsym, renames@).push(
                        finalize_path_v(decycle@),
                    )
                    &&& traits_view(p.traits@) == traits_view(
                        marked_traits(items@, dsym, renames@),
                    )
                    &&& p.contents@ == group_records(items@, items@, dsym, renames@)
                    &&& p.recurse_level == recurse_level
                    &&& p.support_infinite_cycle == support_infinite_cycle
                },
            }
        },
{
    let ghost its = items@;

    // First pass: extract the marked declarations and the deferred
    // references, refusing glob imports among the latter.
    let mut traits: Vec<TraitDecl> = Vec::new();
    let mut working: Vec<Path> = Vec::new();
    let mut i: usize = 0;
    proof {
        assert(traits_view(traits@) =~= traits_view(marked_traits(its.take(0), dsym, renames@)));
        assert(paths_view(working@) =~= marked_working(its.take(0), dsym, renames@));
    }
    while i < items.len()
        invariant
            i <= its.len(),
            traits_view(traits@) =~= traits_view(
                marked_traits(its.take(i as int), dsym, renames@),
            ),
            paths_view(working@) =~= marked_working(its.take(i as int), dsym, renames@),
            !marked_glob(its.take(i as int), dsym, renames@),
        decreases its.len() - i,
    {
        proof {
            assert(its.take(i as int + 1).drop_last() =~= its.take(i as int));
            assert(its.take(i as int + 1).last() == its[i as int]);
        }
        match &items[i] {
            ModItem::TraitDef { attrs, decl } => {
                if any_marker(attrs, dsym, renames) {
                    let ghost pre = traits_view(traits@);
                    traits.push(clone_trait_decl(decl));
                    proof {
                        assert(traits_view(traits@) =~= pre.push(decl@));
                        assert(traits_view(
                            marked_traits(its.take(i as int + 1), dsym, renames@),
                        ) =~= traits_view(marked_traits(its.take(i as int), dsym, renames@)).push(
                            decl@,
                        ));
                    }
                }
            },
            ModItem::TraitAlias { attrs, ident } => {
                if any_marker(attrs, dsym, renames) {
                    let ghost pre = paths_view(working@);
                    working.push(crate::engine::ident_to_path(*ident));
                    proof {
                        assert(paths_view(working@) =~= pre.push(bare_path(*ident)));
                    }
                }
            },
            ModItem::UseDecl { attrs, tree } => {
                if any_marker(attrs, dsym, renames) {
                    match process_trait_path(tree) {
                        Ok(ps) => {
                            append_paths(&mut working, &ps);
                        },
                        Err(_) => {
                            proof {
                                assert(marked_glob(its, dsym, renames@));
                            }
                            return Err(CollectError::GlobInUse);
                        },
                    }
                }
            },
            _ => {},
        }
        i += 1;
    }
    proof {
        assert(its.take(its.len() as int) =~= its);
    }

    // Second pass: refuse nested group markers and macro invocations.
    let mut i: usize = 0;
    while i < items.len()
        invariant
            i <= its.len(),
            structural_refusal(its, dsym, renames@) == structural_refusal(
                its.skip(i as int),
                dsym,
                renames@,
            ),
        decreases its.len() - i,
    {
        proof {
            assert(its.skip(i as int).first() == its[i as int]);
            assert(its.skip(i as int).drop_first() =~= its.skip(i as int + 1));
        }
        match &items[i] {
            ModItem::SubMod { items: sub } => {
                if check_submodule(sub, dsym, renames) {
                    return Err(CollectError::NestedGroupMarker);
                }
            },
            ModItem::MacroDef => {
                return Err(CollectError::MacroUnsupported);
            },
            _ => {},
        }
        i += 1;
    }
    proof {
        assert(its.skip(its.len() as int) =~= Seq::<ModItem>::empty());
    }

    // Nothing marked: the unit is not a group.
    if traits.len() == 0 && working.len() == 0 {
        return Err(CollectError::NothingMarked);
    }
    let first: Option<Path> = if working.len() > 0 {
        Some(clone_path(&working[0]))
    } else {
        None
    };

    // The participant identities, for classifying implementation records.
    proof {
        assert forall|j: int| 0 <= j < traits@.len() implies (#[trigger] traits@[j]).ident
            == marked_traits(its, dsym, renames@)[j].ident by {
            assert(traits@[j]@ == traits_view(marked_traits(its, dsym, renames@))[j]);
        }
        assert forall|j: int| 0 <= j < working@.len() implies (#[trigger] working@[j]).segments@
            == marked_working(its, dsym, renames@)[j].segments by {
            assert(working@[j]@ == marked_working(its, dsym, renames@)[j]);
        }
    }

    // Third pass: move the participants' implementation records out; every
    // other member is left untouched.
    let mut rem = items;
    let mut raw: Vec<ModItem> = Vec::new();
    let mut contents: Vec<ImplRecord> = Vec::new();
    let mut p: usize = 0;
    proof {
        assert(rem@ =~= its.skip(0));
        assert(raw_items(its.take(0), its, dsym, renames@) =~= Seq::<ModItem>::empty());
        assert(contents@ =~= group_records(its.take(0), its, dsym, renames@));
    }
    while rem.len() > 0
        invariant
            p <= its.len(),
            rem@ == its.skip(p as int),
            raw@.len() == raw_items(its.take(p as int), its, dsym, renames@).len(),
            forall|j: int|
                0 <= j < raw@.len() ==> marker_stripped(
                    raw_items(its.take(p as int), its, dsym, renames@)[j],
                    #[trigger] raw@[j],
                    dsym,
                    renames@,
                ),
            contents@ =~= group_records(its.take(p as int), its, dsym, renames@),
        decreases rem@.len(),
    {
        let it = rem.remove(0);
        proof {
            assert(its.skip(p as int)[0] == its[p as int]);
            assert(its.skip(p as int).remove(0) =~= its.skip(p as int + 1));
            assert(its.take(p as int + 1).drop_last() =~= its.take(p as int));
            assert(its.take(p as int + 1).last() == its[p as int]);
        }
        match it {
            ModItem::ImplDef { record } => {
                let is_participant = record.trait_path.segments.len() == 1 && name_in_group(
                    record.trait_path.segments[0],
                    &traits,
                    &working,
                );
                proof {
                    if record.trait_path.segments@.len() == 1 {
                        let n = record.trait_path.segments@[0];
                        let mt = marked_traits(its, dsym, renames@);
                        let mw = marked_working(its, dsym, renames@);
                        assert(traits@.len() == mt.len());
                        assert(working@.len() == mw.len());
                        if exists|j: int| 0 <= j < mt.len() && (#[trigger] mt[j]).ident == n {
                            let j = choose|j: int| 0 <= j < mt.len() && (#[trigger] mt[j]).ident == n;
                            assert(traits@[j].ident == n);
                        }
                        if exists|j: int|
                            0 <= j < mw.len() && (#[trigger] mw[j]).segments.len() > 0
                                && mw[j].segments.last() == n {
                            let j = choose|j: int|
                                0 <= j < mw.len() && (#[trigger] mw[j]).segments.len() > 0
                                    && mw[j].segments.last() == n;
                            assert(working@[j].segments@.len() > 0 && working@[j].segments@.last()
                                == n);
                        }
                        if exists|j: int| 0 <= j < traits@.len() && (#[trigger] traits@[j]).ident == n {
                            let j = choose|j: int|
                                0 <= j < traits@.len() && (#[trigger] traits@[j]).ident == n;
                            assert(mt[j].ident == n);
                        }
                        if exists|j: int|
                            0 <= j < working@.len() && (#[trigger] working@[j]).segments@.len() > 0
                                && working@[j].segments@.last() == n {
                            let j = choose|j: int|
                                0 <= j < working@.len() && (#[trigger] working@[j]).segments@.len()
                                    > 0 && working@[j].segments@.last() == n;
                            assert(mw[j].segments.len() > 0 && mw[j].segments.last() == n);
                        }
                        assert(in_all_traits(n, its, dsym, renames@) == is_participant);
                    }
                }
                if is_participant {
                    contents.push(record);
                } else {
                    let ghost prev = raw_items(its.take(p as int), its, dsym, renames@);
                    raw.push(ModItem::ImplDef { record });
                    proof {
                        let cur = raw_items(its.take(p as int + 1), its, dsym, renames@);
                        assert(cur =~= prev.push(its[p as int]));
                        assert(marker_stripped(its[p as int], raw@.last(), dsym, renames@));
                        assert forall|j: int| 0 <= j < raw@.len() implies marker_stripped(
                            cur[j],
                            #[trigger] raw@[j],
                            dsym,
                            renames@,
                        ) by {
                            if j < prev.len() {
                                assert(cur[j] == prev[j]);
                            } else {
                                assert(cur[j] == its[p as int]);
                            }
                        }
                    }
                }
            },
            other => {
                proof {
                    assert(!is_group_impl(its[p as int], its, dsym, renames@));
                }
                let ghost prev = raw_items(its.take(p as int), its, dsym, renames@);
                let kept = match other {
                    ModItem::TraitDef { attrs, decl } => ModItem::TraitDef {
                        attrs: strip_first_marker(attrs, dsym, renames),
                        decl,
                    },
                    ModItem::TraitAlias { attrs, ident } => ModItem::TraitAlias {
                        attrs: strip_first_marker(attrs, dsym, renames),
                        ident,
                    },
                    ModItem::UseDecl { attrs, tree } => ModItem::UseDecl {
                        attrs: strip_first_marker(attrs, dsym, renames),
                        tree,
                    },
                    o => o,
                };
                proof {
                    assert(marker_stripped(its[p as int], kept, dsym, renames@));
                }
                raw.push(kept);
                proof {
                    let cur = raw_items(its.take(p as int + 1), its, dsym, renames@);
                    assert(cur =~= prev.push(its[p as int]));
                    assert forall|j: int| 0 <= j < raw@.len() implies marker_stripped(
                        cur[j],
                        #[trigger] raw@[j],
                        dsym,
                        renames@,
                    ) by {
                        if j < prev.len() {
                            assert(cur[j] == prev[j]);
                        } else {
                            assert(cur[j] == its[p as int]);
                        }
                    }
                }
            },
        }
        p += 1;
    }
    proof {
        assert(its.take(its.len() as int) =~= its);
    }

    // The final step closes every work list.
    let mut fin = clone_path(decycle);
    fin.segments.push(Name::FinalizeEntry);
    let ghost pre = paths_view(working@);
    working.push(fin);
    proof {
        assert(paths_view(working@) =~= pre.push(finalize_path_v(decycle@)));
    }

    match first {
        None => Ok(
            CollectorOutput {
                raw,
                call: CollectorCall::Direct(
                    FinalizeArgs {
                        working_list: working,
                        traits,
                        contents,
                        recurse_level,
                        support_infinite_cycle,
                    },
                ),
            },
        ),
        Some(f) => Ok(
            CollectorOutput {
                raw,
                call: CollectorCall::Chained(
                    f,
                    Payload {
                        identity: get_crate_identity(),
                        version: version_of_this_build(),
                        working_list: working,
                        traits,
                        contents,
                        recurse_level,
                        support_infinite_cycle,
                    },
                ),
            },
        ),
    }
}

} // verus!
