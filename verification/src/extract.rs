//! The schema extractor: associates each route-annotated comment with the
//! declaration it is attached to, keeps only property-bag declarations, and
//! reduces their members to a primitive schema. Malformed annotations,
//! unmatched comments and unsupported member types are filtered out silently,
//! never reported as errors.

use vstd::prelude::*;

use crate::schema::{Entity, EntityView, PrimitiveType, Property, PropertyView};
use crate::source::{CommentView, Decl, DeclKind, DeclKindView, DeclView, Member, MemberView,
    SourceUnit, SourceUnitView, TypeAnnotation};
use crate::text::{contains_route_marker, has_route_marker, lemma_split_tokens_nonempty,
    split_ws, tokenize};

verus! {

/// The route named by a comment: the second whitespace token of its text,
/// provided the first token contains the route marker. Anything else means
/// the comment is not a route annotation.
pub open spec fn route_of(text: Seq<char>) -> Option<Seq<char>> {
    let toks = split_ws(text);
    if toks.len() >= 2 && has_route_marker(toks[0]) {
        Some(toks[1])
    } else {
        None
    }
}

/// The first declaration whose start position equals `pos`, if any.
pub open spec fn first_decl_at(decls: Seq<DeclView>, pos: u32) -> Option<DeclView>
    decreases decls.len(),
{
    if decls.len() == 0 {
        None
    } else if decls[0].start == pos {
        Some(decls[0])
    } else {
        first_decl_at(decls.subrange(1, decls.len() as int), pos)
    }
}

/// The schema property a member contributes: a named field with a supported
/// keyword annotation maps to a property; everything else is dropped.
pub open spec fn prop_of_member(m: MemberView) -> Option<PropertyView> {
    match m {
        MemberView::Field(name, ann) => match ann {
            TypeAnnotation::BooleanKeyword => Some(
                PropertyView { name, ty: PrimitiveType::Boolean },
            ),
            TypeAnnotation::NumberKeyword => Some(
                PropertyView { name, ty: PrimitiveType::Number },
            ),
            TypeAnnotation::StringKeyword => Some(
                PropertyView { name, ty: PrimitiveType::String },
            ),
            TypeAnnotation::Unsupported => None,
        },
        MemberView::Other => None,
    }
}

/// The properties of a member list: the supported members, in declaration
/// order.
pub open spec fn props_of_members(ms: Seq<MemberView>) -> Seq<PropertyView>
    decreases ms.len(),
{
    if ms.len() == 0 {
        Seq::empty()
    } else {
        let front = props_of_members(ms.drop_last());
        match prop_of_member(ms.last()) {
            Some(p) => front.push(p),
            None => front,
        }
    }
}

/// The entity a single comment yields, if any: the comment must name a route,
/// be attached to the start of some declaration, and that declaration must be
/// a property bag.
pub open spec fn entity_for(c: CommentView, decls: Seq<DeclView>) -> Option<EntityView> {
    match route_of(c.text) {
        None => None,
        Some(route) => match first_decl_at(decls, c.attached_to) {
            None => None,
            Some(d) => match d.kind {
                DeclKindView::PropertyBag(ms) => Some(
                    EntityView { route, props: props_of_members(ms) },
                ),
                DeclKindView::Other => None,
            },
        },
    }
}

/// The entities of a source unit: one per comment that yields one, in
/// comment order.
pub open spec fn extract_from(comments: Seq<CommentView>, decls: Seq<DeclView>) -> Seq<
    EntityView,
>
    decreases comments.len(),
{
    if comments.len() == 0 {
        Seq::empty()
    } else {
        let front = extract_from(comments.drop_last(), decls);
        match entity_for(comments.last(), decls) {
            Some(e) => front.push(e),
            None => front,
        }
    }
}

/// What `extract` returns for a whole source unit.
pub open spec fn extract_spec(u: SourceUnitView) -> Seq<EntityView> {
    extract_from(u.comments, u.decls)
}

/// Every member of a list that maps to a property does so pointwise when
/// all of them are supported.
proof fn lemma_all_supported_props(ms: Seq<MemberView>)
    requires
        forall|i: int| 0 <= i < ms.len() ==> prop_of_member(#[trigger] ms[i]) is Some,
    ensures
        props_of_members(ms).len() == ms.len(),
        forall|i: int|
            0 <= i < ms.len() ==> props_of_members(ms)[i] == prop_of_member(
                #[trigger] ms[i],
            ).unwrap(),
    decreases ms.len(),
{
    if ms.len() > 0 {
        assert(forall|i: int|
            0 <= i < ms.drop_last().len() ==> ms.drop_last()[i] == #[trigger] ms[i]);
        lemma_all_supported_props(ms.drop_last());
    }
}

/// A source unit holding exactly one route-annotated property-bag
/// declaration, all of whose members are supported, yields exactly one
/// entity: its route is the comment's route token, and its properties are
/// the members' name/type pairs, in declaration order.
pub proof fn lemma_single_annotation(u: SourceUnitView, d: DeclView, ms: Seq<MemberView>)
    requires
        u.comments.len() == 1,
        route_of(u.comments[0].text) is Some,
        first_decl_at(u.decls, u.comments[0].attached_to) == Some(d),
        d.kind == DeclKindView::PropertyBag(ms),
        forall|i: int| 0 <= i < ms.len() ==> prop_of_member(#[trigger] ms[i]) is Some,
    ensures
        extract_spec(u).len() == 1,
        extract_spec(u)[0].route == route_of(u.comments[0].text).unwrap(),
        extract_spec(u)[0].props.len() == ms.len(),
        forall|i: int|
            0 <= i < ms.len() ==> extract_spec(u)[0].props[i] == prop_of_member(
                #[trigger] ms[i],
            ).unwrap(),
{
    lemma_all_supported_props(ms);
    assert(u.comments.last() == u.comments[0]);
    assert(entity_for(u.comments[0], u.decls) == Some(
        EntityView {
            route: route_of(u.comments[0].text).unwrap(),
            props: props_of_members(ms),
        },
    ));
    assert(u.comments.drop_last() =~= Seq::<CommentView>::empty());
    assert(extract_from(Seq::<CommentView>::empty(), u.decls) =~= Seq::<
        EntityView,
    >::empty());
    assert(extract_spec(u) =~= Seq::<EntityView>::empty().push(
        entity_for(u.comments[0], u.decls).unwrap(),
    ));
}

/// The supported members of a list: those that map to a property, in their
/// original relative order.
pub open spec fn supported_members(ms: Seq<MemberView>) -> Seq<MemberView>
    decreases ms.len(),
{
    if ms.len() == 0 {
        Seq::empty()
    } else if prop_of_member(ms.last()) is Some {
        supported_members(ms.drop_last()).push(ms.last())
    } else {
        supported_members(ms.drop_last())
    }
}

/// A declaration mixing supported and unsupported members keeps exactly the
/// supported ones, in their original relative order: the property list is
/// the supported member list, member by member.
pub proof fn lemma_mixed_members_filtered(ms: Seq<MemberView>)
    ensures
        props_of_members(ms).len() == supported_members(ms).len(),
        forall|i: int|
            0 <= i < supported_members(ms).len() ==> props_of_members(ms)[i]
                == prop_of_member(#[trigger] supported_members(ms)[i]).unwrap(),
    decreases ms.len(),
{
    if ms.len() > 0 {
        lemma_mixed_members_filtered(ms.drop_last());
    }
}

/// A comment lacking a route token, or attached to no declaration, or
/// attached to a declaration that is not a property bag, yields no entity.
pub proof fn lemma_ignored_comment(u: SourceUnitView)
    requires
        u.comments.len() == 1,
        route_of(u.comments[0].text) is None || first_decl_at(
            u.decls,
            u.comments[0].attached_to,
        ) is None || (first_decl_at(u.decls, u.comments[0].attached_to) matches Some(d)
            && d.kind is Other),
    ensures
        extract_spec(u).len() == 0,
{
    assert(u.comments.last() == u.comments[0]);
    assert(entity_for(u.comments[0], u.decls) is None);
    assert(u.comments.drop_last() =~= Seq::<CommentView>::empty());
    assert(extract_from(Seq::<CommentView>::empty(), u.decls) =~= Seq::<
        EntityView,
    >::empty());
    assert(extract_spec(u) =~= Seq::<EntityView>::empty());
}

/// How many comments of a unit form a valid pair with a property-bag
/// declaration.
pub open spec fn annotated_count(comments: Seq<CommentView>, decls: Seq<DeclView>) -> int
    decreases comments.len(),
{
    if comments.len() == 0 {
        0
    } else {
        annotated_count(comments.drop_last(), decls) + if entity_for(
            comments.last(),
            decls,
        ) is Some {
            1int
        } else {
            0int
        }
    }
}

/// A unit yields exactly one entity per comment that forms a valid
/// (comment, property-bag declaration) pair.
pub proof fn lemma_entity_count(comments: Seq<CommentView>, decls: Seq<DeclView>)
    ensures
        extract_from(comments, decls).len() == annotated_count(comments, decls),
    decreases comments.len(),
{
    if comments.len() > 0 {
        lemma_entity_count(comments.drop_last(), decls);
    }
}

/// Every extracted entity carries a non-empty route: the route is a
/// whitespace token of the comment, and tokens are never empty.
pub proof fn lemma_routes_nonempty(comments: Seq<CommentView>, decls: Seq<DeclView>)
    ensures
        forall|i: int|
            0 <= i < extract_from(comments, decls).len() ==> (#[trigger] extract_from(
                comments,
                decls,
            )[i]).route.len() > 0,
    decreases comments.len(),
{
    if comments.len() > 0 {
        lemma_routes_nonempty(comments.drop_last(), decls);
        let front = extract_from(comments.drop_last(), decls);
        match entity_for(comments.last(), decls) {
            Some(e) => {
                assert(e.route.len() > 0) by {
                    lemma_split_tokens_nonempty(Seq::empty(), comments.last().text);
                }
                assert forall|i: int|
                    0 <= i < extract_from(comments, decls).len() implies (
                #[trigger] extract_from(comments, decls)[i]).route.len() > 0 by {
                    if i < front.len() {
                        assert(extract_from(comments, decls)[i] == front[i]);
                    } else {
                        assert(extract_from(comments, decls)[i] == e);
                    }
                }
            },
            None => {},
        }
    }
}

/// Finds the first declaration starting at `pos`.
fn find_decl<'a>(decls: &'a Vec<Decl>, pos: u32) -> (r: Option<&'a Decl>)
    ensures
        match r {
            Some(d) => first_decl_at(decls@.map_values(|d2: Decl| d2@), pos) == Some(d@),
            None => first_decl_at(decls@.map_values(|d2: Decl| d2@), pos) is None,
        },
{
    let ghost dv = decls@.map_values(|d2: Decl| d2@);
    let n = decls.len();
    let mut i: usize = 0;
    proof {
        assert(dv.subrange(0, dv.len() as int) =~= dv);
    }
    while i < n
        invariant
            i <= n,
            n == decls.len(),
            dv == decls@.map_values(|d2: Decl| d2@),
            first_decl_at(dv, pos) == first_decl_at(
                dv.subrange(i as int, dv.len() as int),
                pos,
            ),
        decreases n - i,
    {
        let ghost rem = dv.subrange(i as int, dv.len() as int);
        proof {
            assert(rem[0] == dv[i as int]);
            assert(rem.subrange(1, rem.len() as int) =~= dv.subrange(
                i as int + 1,
                dv.len() as int,
            ));
        }
        if decls[i].start == pos {
            return Some(&decls[i]);
        }
        i = i + 1;
    }
    proof {
        assert(dv.subrange(n as int, dv.len() as int) =~= Seq::<DeclView>::empty());
    }
    None
}

/// Reduces a declaration's members to its schema properties, keeping only
/// supported ones, in declaration order.
fn props_of(ms: &Vec<Member>) -> (r: Vec<Property>)
    ensures
        r@.map_values(|p: Property| p@) == props_of_members(
            ms@.map_values(|m: Member| m@),
        ),
{
    let ghost mv = ms@.map_values(|m: Member| m@);
    let n = ms.len();
    let mut out: Vec<Property> = Vec::new();
    let mut i: usize = 0;
    proof {
        assert(mv.subrange(0, 0) =~= Seq::<MemberView>::empty());
        assert(out@.map_values(|p: Property| p@) =~= Seq::<PropertyView>::empty());
    }
    while i < n
        invariant
            i <= n,
            n == ms.len(),
            mv == ms@.map_values(|m: Member| m@),
            out@.map_values(|p: Property| p@) == props_of_members(
                mv.subrange(0, i as int),
            ),
        decreases n - i,
    {
        let ghost pre = mv.subrange(0, i as int);
        let ghost post = mv.subrange(0, i as int + 1);
        proof {
            assert(post.drop_last() =~= pre);
            assert(post.last() == mv[i as int]);
        }
        let ghost old_out = out@;
        match &ms[i] {
            Member::Field(name, ann) => {
                let ty_opt: Option<PrimitiveType> = match ann {
                    TypeAnnotation::BooleanKeyword => Some(PrimitiveType::Boolean),
                    TypeAnnotation::NumberKeyword => Some(PrimitiveType::Number),
                    TypeAnnotation::StringKeyword => Some(PrimitiveType::String),
                    TypeAnnotation::Unsupported => None,
                };
                match ty_opt {
                    Some(ty) => {
                        let p = Property { name: name.clone(), ty };
                        out.push(p);
                        proof {
                            assert(out@.map_values(|p2: Property| p2@) =~= old_out.map_values(
                                |p2: Property| p2@,
                            ).push(prop_of_member(mv[i as int]).unwrap()));
                        }
                    },
                    None => {},
                }
            },
            Member::Other => {},
        }
        i = i + 1;
    }
    proof {
        assert(mv.subrange(0, n as int) =~= mv);
    }
    out
}

/// Extracts every entity of one source unit, in comment order. This never
/// fails: comments that are not valid route annotations, comments attached
/// to nothing or to a declaration that is not a property bag, and members of
/// unsupported type are all silently left out.
pub fn extract(unit: &SourceUnit) -> (r: Vec<Entity>)
    ensures
        r@.map_values(|e: Entity| e@) == extract_spec(unit@),
{
    let ghost cv = unit@.comments;
    let ghost dv = unit@.decls;
    let n = unit.comments.len();
    let mut out: Vec<Entity> = Vec::new();
    let mut ci: usize = 0;
    proof {
        assert(cv.subrange(0, 0) =~= Seq::<CommentView>::empty());
        assert(out@.map_values(|e: Entity| e@) =~= Seq::<EntityView>::empty());
    }
    while ci < n
        invariant
            ci <= n,
            n == unit.comments.len(),
            cv == unit@.comments,
            dv == unit@.decls,
            out@.map_values(|e: Entity| e@) == extract_from(
                cv.subrange(0, ci as int),
                dv,
            ),
        decreases n - ci,
    {
        let ghost pre = cv.subrange(0, ci as int);
        let ghost post = cv.subrange(0, ci as int + 1);
        proof {
            assert(post.drop_last() =~= pre);
            assert(post.last() == cv[ci as int]);
        }
        let ghost old_out = out@;
        let comment = &unit.comments[ci];
        let toks = tokenize(comment.text.as_str());
        let ghost tv = toks@.map_values(|t: String| t@);
        if toks.len() >= 2 && contains_route_marker(toks[0].as_str()) {
            proof {
                assert(tv[0] == toks@[0]@);
                assert(tv[1] == toks@[1]@);
                assert(route_of(cv[ci as int].text) == Some(tv[1]));
            }
            match find_decl(&unit.decls, comment.attached_to) {
                Some(d) => {
                    match &d.kind {
                        DeclKind::PropertyBag(ms) => {
                            let props = props_of(ms);
                            let route = toks[1].clone();
                            let e = Entity { route, props };
                            out.push(e);
                            proof {
                                assert(entity_for(cv[ci as int], dv) == Some(
                                    EntityView {
                                        route: tv[1],
                                        props: props_of_members(
                                            ms@.map_values(|m: Member| m@),
                                        ),
                                    },
                                ));
                                assert(out@.map_values(|e2: Entity| e2@)
                                    =~= old_out.map_values(|e2: Entity| e2@).push(
                                    entity_for(cv[ci as int], dv).unwrap(),
                                ));
                            }
                        },
                        DeclKind::Other => {
                            proof {
                                assert(entity_for(cv[ci as int], dv) is None);
                            }
                        },
                    }
                },
                None => {
                    proof {
                        assert(entity_for(cv[ci as int], dv) is None);
                    }
                },
            }
        } else {
            proof {
                assert(route_of(cv[ci as int].text) is None);
                assert(entity_for(cv[ci as int], dv) is None);
            }
        }
        ci = ci + 1;
    }
    proof {
        assert(cv.subrange(0, n as int) =~= cv);
    }
    out
}

} // verus!
