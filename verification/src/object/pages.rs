//! A page-tree node: an ordered collection of pages and subtrees.

use vstd::prelude::*;
use super::object_id::{id_obj_bytes, id_ref_bytes, ObjectId};
use super::objects::{arena_get, Objects};
use super::page::{page_bytes, Page};
use super::page_attributes::{media_box_entry_bytes, rotate_entry_bytes, InheritedPageAttributes};
use super::documents::{DocumentId, Documents};
use super::Object;
use crate::cross_reference::{CrossReferenceTable, CrossReferenceTableEntry};
use crate::digits::dec_digits;
use crate::error::PdfError;

verus! {

/// A collection of pages within the page tree of the document.
#[derive(Debug)]
pub struct Pages {
    pub id: ObjectId,
    pub kids: Vec<ObjectId>,
    pub count: usize,
    pub inherited: InheritedPageAttributes,
}

/// The abstract value of a page-tree node.
pub open spec fn pages_model(p: Pages) -> (ObjectId, Seq<ObjectId>, nat, InheritedPageAttributes) {
    (p.id, p.kids@, p.count as nat, p.inherited)
}

/// The child references, joined by single spaces.
pub open spec fn kids_ref_bytes(s: Seq<ObjectId>) -> Seq<u8>
    decreases s.len(),
{
    if s.len() == 0 {
        Seq::empty()
    } else if s.len() == 1 {
        id_ref_bytes(s.first())
    } else {
        id_ref_bytes(s.first()) + seq![32u8] + kids_ref_bytes(s.drop_first())
    }
}

/// The exact bytes of the node's own dictionary object.
pub open spec fn pages_own_bytes(p: Pages) -> Seq<u8> {
    id_obj_bytes(p.id) + seq![10u8] + seq![60u8, 60u8, 32u8] + seq![
        47u8, 67u8, 111u8, 117u8, 110u8, 116u8, 32u8,
    ] + dec_digits(p.count as int) + seq![32u8] + seq![47u8, 75u8, 105u8, 100u8, 115u8, 32u8, 91u8]
        + kids_ref_bytes(p.kids@) + seq![93u8, 32u8] + media_box_entry_bytes(p.inherited)
        + rotate_entry_bytes(p.inherited) + seq![
        47u8, 84u8, 121u8, 112u8, 101u8, 32u8, 47u8, 80u8, 97u8, 103u8, 101u8, 115u8, 32u8,
    ] + seq![62u8, 62u8] + seq![10u8, 101u8, 110u8, 100u8, 111u8, 98u8, 106u8, 10u8]
}

/// Renders a subtree rooted at `p`: the node's own object, then each child
/// that resolves, depth-first.  The result is the bytes written, the new
/// byte total, and the cross-reference entries after the walk.
pub open spec fn pages_subtree(
    om: Seq<(ObjectId, Object)>,
    p: Pages,
    total: nat,
    entries: Seq<CrossReferenceTableEntry>,
    fuel: nat,
) -> (Seq<u8>, nat, Seq<CrossReferenceTableEntry>)
    decreases fuel, 2int, 0int,
{
    let own = pages_own_bytes(p);
    let entries1 = entries.push(
        CrossReferenceTableEntry {
            offset: (total + 1) as usize,
            generation: p.id.generation_number,
            in_use: true,
        },
    );
    let total1 = total + own.len();
    let (kb, t2, e2) = kids_chain(om, p.kids@, p.id, total1, entries1, fuel);
    (own + kb, t2, e2)
}

/// Renders the children of a node in order, threading the byte total and
/// the cross-reference entries.
pub open spec fn kids_chain(
    om: Seq<(ObjectId, Object)>,
    ks: Seq<ObjectId>,
    parent: ObjectId,
    total: nat,
    entries: Seq<CrossReferenceTableEntry>,
    fuel: nat,
) -> (Seq<u8>, nat, Seq<CrossReferenceTableEntry>)
    decreases fuel, 1int, ks.len(),
{
    if ks.len() == 0 {
        (Seq::empty(), total, entries)
    } else {
        let (b1, t1, e1) = kid_render(om, ks.first(), parent, total, entries, fuel);
        let (b2, t2, e2) = kids_chain(om, ks.drop_first(), parent, t1, e1, fuel);
        (b1 + b2, t2, e2)
    }
}

/// Renders one child: a page writes its dictionary, a subtree recurses, and
/// an unresolved id or a non-page object is silently skipped.
pub open spec fn kid_render(
    om: Seq<(ObjectId, Object)>,
    kid: ObjectId,
    parent: ObjectId,
    total: nat,
    entries: Seq<CrossReferenceTableEntry>,
    fuel: nat,
) -> (Seq<u8>, nat, Seq<CrossReferenceTableEntry>)
    decreases fuel, 0int, 0int,
{
    match arena_get(om, kid) {
        Option::Some(o) => match o {
            Object::Page(pg) => {
                let b = page_bytes(pg, parent);
                (
                    b,
                    total + b.len(),
                    entries.push(
                        CrossReferenceTableEntry {
                            offset: (total + 1) as usize,
                            generation: pg.id.generation_number,
                            in_use: true,
                        },
                    ),
                )
            },
            Object::Pages(ps) => {
                if fuel == 0 {
                    (Seq::empty(), total, entries)
                } else {
                    pages_subtree(om, ps, total, entries, (fuel - 1) as nat)
                }
            },
            _ => (Seq::empty(), total, entries),
        },
        Option::None => (Seq::empty(), total, entries),
    }
}

/// Appending a child id extends the chain by that child's rendering.
proof fn lemma_kids_chain_snoc(
    om: Seq<(ObjectId, Object)>,
    ks: Seq<ObjectId>,
    x: ObjectId,
    parent: ObjectId,
    total: nat,
    entries: Seq<CrossReferenceTableEntry>,
    fuel: nat,
)
    ensures
        ({
            let (b1, t1, e1) = kids_chain(om, ks, parent, total, entries, fuel);
            let (b2, t2, e2) = kid_render(om, x, parent, t1, e1, fuel);
            kids_chain(om, ks.push(x), parent, total, entries, fuel) == ((b1 + b2), t2, e2)
        }),
    decreases ks.len(),
{
    if ks.len() == 0 {
        assert(ks.push(x).len() == 1);
        assert(ks.push(x).first() == x);
        assert(ks.push(x).drop_first() =~= Seq::<ObjectId>::empty());
        let (b1, t1, e1) = kids_chain(om, ks, parent, total, entries, fuel);
        assert(b1 =~= Seq::<u8>::empty());
        assert(t1 == total && e1 == entries);
        let (b2, t2, e2) = kid_render(om, x, parent, total, entries, fuel);
        let res = kids_chain(om, ks.push(x), parent, total, entries, fuel);
        assert(kids_chain(om, Seq::<ObjectId>::empty(), parent, t2, e2, fuel) == (
            Seq::<u8>::empty(),
            t2,
            e2,
        ));
        assert(res.0 =~= b2);
        assert(res.1 == t2 && res.2 == e2);
        assert(b1 + b2 =~= b2);
        assert(res.0 == b1 + b2);
        assert(res == ((b1 + b2), t2, e2));
    } else {
        assert(ks.push(x).drop_first() =~= ks.drop_first().push(x));
        assert(ks.push(x).first() == ks.first());
        let (c1, u1, f1) = kid_render(om, ks.first(), parent, total, entries, fuel);
        lemma_kids_chain_snoc(om, ks.drop_first(), x, parent, u1, f1, fuel);
        let (b1, t1, e1) = kids_chain(om, ks, parent, total, entries, fuel);
        let (b2, t2, e2) = kid_render(om, x, parent, t1, e1, fuel);
        let (d1, v1, g1) = kids_chain(om, ks.drop_first(), parent, u1, f1, fuel);
        assert(c1 + (d1 + b2) =~= (c1 + d1) + b2);
    }
}

impl Pages {
    /// Creates an empty page-tree node.
    pub fn new_at(id: ObjectId) -> (r: Pages)
        ensures
            r.id == id,
            r.kids@.len() == 0,
            r.count == 0,
            r.inherited.media_box_spec() is None,
            r.inherited.rotation_spec() is None,
    {
        Pages { id, kids: Vec::new(), count: 0, inherited: InheritedPageAttributes::empty() }
    }

    /// A deep copy with the same abstract value.
    pub fn duplicate(&self) -> (r: Pages)
        ensures
            pages_model(r) == pages_model(*self),
            r.inherited == self.inherited,
            r.id == self.id,
            r.kids@ == self.kids@,
            r.count == self.count,
    {
        let mut kids: Vec<ObjectId> = Vec::new();
        let mut i: usize = 0;
        while i < self.kids.len()
            invariant
                i <= self.kids@.len(),
                kids@ == self.kids@.subrange(0, i as int),
            decreases self.kids@.len() - i,
        {
            kids.push(self.kids[i]);
            proof {
                assert(kids@ =~= self.kids@.subrange(0, i as int + 1));
            }
            i = i + 1;
        }
        proof {
            assert(self.kids@.subrange(0, self.kids@.len() as int) =~= self.kids@);
        }
        Pages { id: self.id, kids, count: self.count, inherited: self.inherited }
    }

    /// Gets the object ids of the children.
    pub fn kids(&self) -> (r: Vec<ObjectId>)
        ensures
            r@ == self.kids@,
    {
        self.duplicate().kids
    }

    /// Adds a child, which must be a page or another subtree; its id is
    /// appended to the kid list and the descendant count grows by one.
    pub fn add_child(&mut self, child: Object) -> (res: Result<(), PdfError>)
        requires
            old(self).count < usize::MAX,
        ensures
            match res {
                Result::Ok(_) => (child is Page || child is Pages) && final(self).kids@
                    == old(self).kids@.push(child.get_id_spec()) && final(self).count == old(
                    self,
                ).count + 1 && final(self).id == old(self).id && final(self).inherited == old(
                    self,
                ).inherited,
                Result::Err(e) => !(child is Page) && !(child is Pages) && e
                    == PdfError::InvalidChild && *final(self) == *old(self),
            },
    {
        match child {
            Object::Pages(pages) => {
                self.kids.push(pages.id);
                self.count = self.count + 1;
                Result::Ok(())
            },
            Object::Page(page) => {
                self.kids.push(page.id);
                self.count = self.count + 1;
                Result::Ok(())
            },
            _ => Result::Err(PdfError::InvalidChild),
        }
    }

    /// Gets the page tree of a document: the first `Pages` object of its
    /// arena, or nothing when the document or tree is absent.
    pub fn get_page_tree(docs: &Documents, document_id: DocumentId) -> (r: Option<Pages>)
        ensures
            match super::documents::registry_get(docs.model(), document_id) {
                Option::Some(arena) => match super::objects::find_pages(arena) {
                    Option::Some(p) => r is Some && pages_model(r->Some_0) == pages_model(p),
                    Option::None => r is None,
                },
                Option::None => r is None,
            },
    {
        match super::documents::get(docs, document_id) {
            Option::Some(objects) => objects.page_tree(),
            Option::None => Option::None,
        }
    }

    /// Renders this node and, depth-first, every child that resolves in the
    /// arena, recording cross-reference entries along the way.  Subtrees
    /// nested deeper than the given budget are skipped.
    #[verifier::rlimit(100)]
    pub fn render_tree(
        &self,
        objects: &Objects,
        writer: &mut Vec<u8>,
        xref: &mut CrossReferenceTable,
        fuel: u32,
    ) -> (res: Result<(), PdfError>)
        requires
            pages_subtree(
                objects.model(),
                *self,
                old(xref).total_spec(),
                old(xref).entries_spec(),
                fuel as nat,
            ).1 < usize::MAX,
        ensures
            ({
                let (b, t2, e2) = pages_subtree(
                    objects.model(),
                    *self,
                    old(xref).total_spec(),
                    old(xref).entries_spec(),
                    fuel as nat,
                );
                &&& final(writer)@ == old(writer)@ + b
                &&& final(xref).total_spec() == t2
                &&& final(xref).entries_spec() == e2
                &&& res is Ok
            }),
        decreases fuel, 2int, 0int,
    {
        let ghost om = objects.model();
        let ghost total0 = xref.total_spec();
        let ghost entries0 = xref.entries_spec();
        let ghost whole = pages_subtree(om, *self, total0, entries0, fuel as nat);
        proof {
            lemma_chain_total_monotone(
                om,
                self.kids@,
                self.id,
                total0 + pages_own_bytes(*self).len(),
                entries0.push(
                    CrossReferenceTableEntry {
                        offset: (total0 + 1) as usize,
                        generation: self.id.generation_number,
                        in_use: true,
                    },
                ),
                fuel as nat,
            );
            assert(whole.1 >= total0 + pages_own_bytes(*self).len());
        }
        let start = writer.len();
        xref.add_entry(self.id.generation_number, true);
        self.id.push_obj_header(writer);
        let g1: &[u8] = &[10, 60, 60, 32, 47, 67, 111, 117, 110, 116, 32];
        crate::helpers::write_all_count(writer, g1);
        proof {
            assert(g1@ =~= seq![
                10u8, 60u8, 60u8, 32u8, 47u8, 67u8, 111u8, 117u8, 110u8, 116u8, 32u8,
            ]);
        }
        crate::digits::push_u128_decimal(writer, self.count as u128);
        let g2: &[u8] = &[32, 47, 75, 105, 100, 115, 32, 91];
        crate::helpers::write_all_count(writer, g2);
        proof {
            assert(g2@ =~= seq![32u8, 47u8, 75u8, 105u8, 100u8, 115u8, 32u8, 91u8]);
        }
        let mut i: usize = 0;
        let ghost kb0 = writer@;
        while i < self.kids.len()
            invariant
                i <= self.kids@.len(),
                writer@ == kb0 + kids_ref_bytes(self.kids@.take(i as int)),
            decreases self.kids@.len() - i,
        {
            if i > 0 {
                writer.push(32);
            }
            self.kids[i].push_ref(writer);
            proof {
                lemma_kids_ref_snoc(self.kids@.take(i as int), self.kids@[i as int]);
                assert(self.kids@.take(i as int + 1) =~= self.kids@.take(i as int).push(
                    self.kids@[i as int],
                ));
                if i > 0 {
                    assert(kids_ref_bytes(self.kids@.take(i as int)).len() > 0) by {
                        lemma_kids_ref_len(self.kids@.take(i as int));
                    }
                }
                assert(writer@ =~= kb0 + kids_ref_bytes(self.kids@.take(i as int + 1)));
            }
            i = i + 1;
        }
        proof {
            assert(self.kids@.take(self.kids@.len() as int) =~= self.kids@);
        }
        let g3: &[u8] = &[93, 32];
        crate::helpers::write_all_count(writer, g3);
        proof {
            assert(g3@ =~= seq![93u8, 32u8]);
        }
        self.inherited.push_media_box_entry(writer);
        self.inherited.push_rotate_entry(writer);
        let g4: &[u8] = &[
            47, 84, 121, 112, 101, 32, 47, 80, 97, 103, 101, 115, 32, 62, 62, 10, 101, 110, 100,
            111, 98, 106, 10,
        ];
        crate::helpers::write_all_count(writer, g4);
        proof {
            assert(g4@ =~= seq![
                47u8, 84u8, 121u8, 112u8, 101u8, 32u8, 47u8, 80u8, 97u8, 103u8, 101u8, 115u8,
                32u8, 62u8, 62u8, 10u8, 101u8, 110u8, 100u8, 111u8, 98u8, 106u8, 10u8,
            ]);
            assert(writer@ =~= old(writer)@ + pages_own_bytes(*self));
        }
        let n = writer.len() - start;
        xref.add_bytes(n);
        let ghost total1 = xref.total_spec();
        let ghost entries1 = xref.entries_spec();
        let ghost after_own = writer@;
        proof {
            assert(self.kids@.take(0) =~= Seq::<ObjectId>::empty());
            assert(self.kids@.skip(0) =~= self.kids@);
            assert(whole.1 == kids_chain(om, self.kids@, self.id, total1, entries1, fuel as nat).1);
            lemma_chain_total_monotone(om, self.kids@, self.id, total1, entries1, fuel as nat);
        }
        let mut k: usize = 0;
        while k < self.kids.len()
            invariant
                k <= self.kids@.len(),
                om == objects.model(),
                ({
                    let (b, t, e) = kids_chain(
                        om,
                        self.kids@.take(k as int),
                        self.id,
                        total1,
                        entries1,
                        fuel as nat,
                    );
                    &&& writer@ == after_own + b
                    &&& xref.total_spec() == t
                    &&& xref.entries_spec() == e
                }),
                whole == pages_subtree(om, *self, total0, entries0, fuel as nat),
                whole.1 < usize::MAX,
                after_own == old(writer)@ + pages_own_bytes(*self),
                total1 == total0 + pages_own_bytes(*self).len(),
                entries1 == entries0.push(
                    CrossReferenceTableEntry {
                        offset: (total0 + 1) as usize,
                        generation: self.id.generation_number,
                        in_use: true,
                    },
                ),
                kids_chain(
                    om,
                    self.kids@.skip(k as int),
                    self.id,
                    xref.total_spec(),
                    xref.entries_spec(),
                    fuel as nat,
                ).1 == whole.1,
                xref.total_spec() <= whole.1,
            decreases self.kids@.len() - k,
        {
            let ghost pre_w = writer@;
            let ghost pre_t = xref.total_spec();
            let ghost pre_e = xref.entries_spec();
            let ghost step = kid_render(om, self.kids@[k as int], self.id, pre_t, pre_e, fuel as nat);
            proof {
                assert(self.kids@.skip(k as int).first() == self.kids@[k as int]);
                assert(self.kids@.skip(k as int).drop_first() =~= self.kids@.skip(k as int + 1));
                lemma_kid_total_monotone(om, self.kids@[k as int], self.id, pre_t, pre_e, fuel as nat);
                lemma_chain_total_monotone(
                    om,
                    self.kids@.skip(k as int + 1),
                    self.id,
                    step.1,
                    step.2,
                    fuel as nat,
                );
                assert(kids_chain(om, self.kids@.skip(k as int), self.id, pre_t, pre_e, fuel as nat).1
                    == whole.1);
            }
            let kid_id = self.kids[k];
            match objects.get(&kid_id) {
                Option::Some(o) => {
                    match o {
                        Object::Page(pg) => {
                            let pg2 = *pg;
                            pg2.render_page(self.id, writer, xref);
                        },
                        Object::Pages(ps) => {
                            if fuel > 0 {
                                let ps2 = ps.duplicate();
                                proof {
                                    lemma_subtree_model_same(
                                        om,
                                        ps2,
                                        *ps,
                                        pre_t,
                                        pre_e,
                                        (fuel - 1) as nat,
                                    );
                                    lemma_subtree_total_monotone(
                                        om,
                                        ps2,
                                        pre_t,
                                        pre_e,
                                        (fuel - 1) as nat,
                                    );
                                }
                                ps2.render_tree(objects, writer, xref, fuel - 1);
                            }
                        },
                        _ => {},
                    }
                },
                Option::None => {},
            }
            proof {
                assert(writer@ == pre_w + step.0);
                assert(xref.total_spec() == step.1);
                assert(xref.entries_spec() == step.2);
                let rest = kids_chain(
                    om,
                    self.kids@.skip(k as int + 1),
                    self.id,
                    step.1,
                    step.2,
                    fuel as nat,
                );
                assert(kids_chain(om, self.kids@.skip(k as int), self.id, pre_t, pre_e, fuel as nat)
                    == ((step.0 + rest.0), rest.1, rest.2));
                assert(rest.1 == whole.1);
                lemma_kids_chain_snoc(
                    om,
                    self.kids@.take(k as int),
                    self.kids@[k as int],
                    self.id,
                    total1,
                    entries1,
                    fuel as nat,
                );
                assert(self.kids@.take(k as int + 1) =~= self.kids@.take(k as int).push(
                    self.kids@[k as int],
                ));
            }
            k = k + 1;
        }
        proof {
            assert(self.kids@.take(self.kids@.len() as int) =~= self.kids@);
            assert(self.kids@.skip(self.kids@.len() as int).len() == 0);
        }
        Result::Ok(())
    }
}

/// A subtree's final byte total is at least the starting total.
pub proof fn lemma_subtree_total_monotone_pub(
    om: Seq<(ObjectId, Object)>,
    p: Pages,
    total: nat,
    entries: Seq<CrossReferenceTableEntry>,
    fuel: nat,
)
    ensures
        pages_subtree(om, p, total, entries, fuel).1 >= total,
{
    lemma_subtree_total_monotone(om, p, total, entries, fuel);
}

/// Rendering depends only on a node's abstract value.
pub proof fn lemma_subtree_model_same_pub(
    om: Seq<(ObjectId, Object)>,
    a: Pages,
    b: Pages,
    total: nat,
    entries: Seq<CrossReferenceTableEntry>,
    fuel: nat,
)
    requires
        pages_model(a) == pages_model(b),
    ensures
        pages_subtree(om, a, total, entries, fuel) == pages_subtree(om, b, total, entries, fuel),
{
    lemma_subtree_model_same(om, a, b, total, entries, fuel);
}

/// A subtree's final byte total is at least the starting total.
proof fn lemma_subtree_total_monotone(
    om: Seq<(ObjectId, Object)>,
    p: Pages,
    total: nat,
    entries: Seq<CrossReferenceTableEntry>,
    fuel: nat,
)
    ensures
        pages_subtree(om, p, total, entries, fuel).1 >= total,
    decreases fuel, 2int, 0int,
{
    lemma_chain_total_monotone(
        om,
        p.kids@,
        p.id,
        total + pages_own_bytes(p).len(),
        entries.push(
            CrossReferenceTableEntry {
                offset: (total + 1) as usize,
                generation: p.id.generation_number,
                in_use: true,
            },
        ),
        fuel,
    );
}

/// A chain's final byte total is at least the starting total.
proof fn lemma_chain_total_monotone(
    om: Seq<(ObjectId, Object)>,
    ks: Seq<ObjectId>,
    parent: ObjectId,
    total: nat,
    entries: Seq<CrossReferenceTableEntry>,
    fuel: nat,
)
    ensures
        kids_chain(om, ks, parent, total, entries, fuel).1 >= total,
    decreases fuel, 1int, ks.len(),
{
    if ks.len() != 0 {
        lemma_kid_total_monotone(om, ks.first(), parent, total, entries, fuel);
        let (b1, t1, e1) = kid_render(om, ks.first(), parent, total, entries, fuel);
        lemma_chain_total_monotone(om, ks.drop_first(), parent, t1, e1, fuel);
    }
}

/// A child's final byte total is at least the starting total.
proof fn lemma_kid_total_monotone(
    om: Seq<(ObjectId, Object)>,
    kid: ObjectId,
    parent: ObjectId,
    total: nat,
    entries: Seq<CrossReferenceTableEntry>,
    fuel: nat,
)
    ensures
        kid_render(om, kid, parent, total, entries, fuel).1 >= total,
    decreases fuel, 0int, 0int,
{
    match arena_get(om, kid) {
        Option::Some(o) => match o {
            Object::Pages(ps) => {
                if fuel > 0 {
                    lemma_subtree_total_monotone(om, ps, total, entries, (fuel - 1) as nat);
                }
            },
            _ => {},
        },
        Option::None => {},
    }
}

/// Rendering depends only on a node's abstract value.
proof fn lemma_subtree_model_same(
    om: Seq<(ObjectId, Object)>,
    a: Pages,
    b: Pages,
    total: nat,
    entries: Seq<CrossReferenceTableEntry>,
    fuel: nat,
)
    requires
        pages_model(a) == pages_model(b),
    ensures
        pages_subtree(om, a, total, entries, fuel) == pages_subtree(om, b, total, entries, fuel),
{
    assert(pages_own_bytes(a) == pages_own_bytes(b));
}

/// A nonempty kid list renders at least one byte.
proof fn lemma_kids_ref_len(s: Seq<ObjectId>)
    requires
        s.len() > 0,
    ensures
        kids_ref_bytes(s).len() > 0,
{
    crate::digits::lemma_dec_digits_ascii(s.first().object_number as int);
}

/// Appending a child reference extends the joined list.
proof fn lemma_kids_ref_snoc(s: Seq<ObjectId>, x: ObjectId)
    ensures
        kids_ref_bytes(s.push(x)) == if s.len() == 0 {
            id_ref_bytes(x)
        } else {
            kids_ref_bytes(s) + seq![32u8] + id_ref_bytes(x)
        },
    decreases s.len(),
{
    if s.len() == 0 {
        assert(s.push(x).len() == 1);
        assert(s.push(x).first() == x);
    } else {
        assert(s.push(x).drop_first() =~= s.drop_first().push(x));
        lemma_kids_ref_snoc(s.drop_first(), x);
        if s.len() == 1 {
            assert(kids_ref_bytes(s) == id_ref_bytes(s.first()));
        } else {
            assert(kids_ref_bytes(s.push(x)) =~= kids_ref_bytes(s) + seq![32u8] + id_ref_bytes(x));
        }
    }
}


impl super::IndirectObject for Pages {
    open spec fn id_spec(&self) -> ObjectId {
        self.id
    }

    open spec fn render_fits(
        &self,
        objects: &Objects,
        parent_id: ObjectId,
        total: nat,
        entries: Seq<CrossReferenceTableEntry>,
    ) -> bool {
        pages_subtree(objects.model(), *self, total, entries, (objects.model().len() + 1) as nat).1
            < usize::MAX && objects.model().len() < u32::MAX
    }

    fn new(id: ObjectId) -> (r: Pages)
        ensures
            r.kids@.len() == 0,
            r.count == 0,
            r.inherited.media_box_spec() is None,
            r.inherited.rotation_spec() is None,
    {
        Pages::new_at(id)
    }

    fn get_id(&self) -> ObjectId {
        self.id
    }

    fn set_id(&mut self, id: ObjectId)
        ensures
            final(self).kids@ == old(self).kids@,
            final(self).count == old(self).count,
            final(self).inherited == old(self).inherited,
    {
        self.id = id;
    }

    fn get_type(&self) -> (r: super::ObjectType)
        ensures
            r == super::ObjectType::Pages,
    {
        super::ObjectType::Pages
    }

    fn render(
        &self,
        objects: &Objects,
        parent_id: ObjectId,
        writer: &mut Vec<u8>,
        xref: &mut CrossReferenceTable,
    ) -> (res: Result<(), PdfError>)
        ensures
            ({
                let (b, t2, e2) = pages_subtree(
                    objects.model(),
                    *self,
                    old(xref).total_spec(),
                    old(xref).entries_spec(),
                    (objects.model().len() + 1) as nat,
                );
                &&& final(writer)@ == old(writer)@ + b
                &&& final(xref).total_spec() == t2
                &&& final(xref).entries_spec() == e2
                &&& res is Ok
            }),
    {
        let fuel: u32 = objects.len() as u32 + 1;
        self.render_tree(objects, writer, xref, fuel)
    }
}

} // verus!
