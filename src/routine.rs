//! The routine over a store: reset it in dependency order, insert the test
//! data (two images, two tags, one association each), and look up the tags
//! of an image.
use crate::ident::Id;
use crate::models::{Image, ImageTag, NewImage, NewImageTag, NewTag, Tag, WithId};
use crate::schema::{Column, Table};
use crate::store::{
    apply, apply_all, copy_image, copy_tag, find_image_in, find_tag_in, has_image_id,
    has_link_id, has_tag_id, is_linked, lemma_apply_wf, linked_tags, DbError, Statement, Store,
    StoreView,
};
use vstd::prelude::*;

verus! {

/// The statements of a reset: associations first, then tags, then images.
pub open spec fn reset_statements() -> Seq<Statement> {
    seq![
        Statement::DeleteAll(Table::ImageTags),
        Statement::DeleteAll(Table::Tags),
        Statement::DeleteAll(Table::Images),
    ]
}

/// One statement more at the end of a plan.
pub proof fn lemma_apply_all_push(v: StoreView, plan: Seq<Statement>, st: Statement)
    ensures
        apply_all(v, plan.push(st)) == match apply_all(v, plan) {
            Ok(w) => apply(w, st),
            Err(e) => Err(e),
        },
{
    assert(plan.push(st).drop_last() =~= plan);
}

/// Deleting associations, then tags, then images is never refused, and
/// leaves every relation without rows.
pub proof fn lemma_reset_clears(v: StoreView)
    requires
        v.wf(),
    ensures
        apply_all(v, reset_statements()) == Ok::<StoreView, DbError>(StoreView::empty()),
{
    let p0 = Seq::<Statement>::empty();
    let p1 = p0.push(Statement::DeleteAll(Table::ImageTags));
    let p2 = p1.push(Statement::DeleteAll(Table::Tags));
    let p3 = p2.push(Statement::DeleteAll(Table::Images));
    lemma_apply_all_push(v, p0, Statement::DeleteAll(Table::ImageTags));
    lemma_apply_all_push(v, p1, Statement::DeleteAll(Table::Tags));
    lemma_apply_all_push(v, p2, Statement::DeleteAll(Table::Images));
    assert(p3 =~= reset_statements());
    assert(apply_all(v, p3) == Ok::<StoreView, DbError>(StoreView::empty())) by {
        assert(StoreView { images: Seq::empty(), ..StoreView { tags: Seq::empty(), ..StoreView { links: Seq::empty(), ..v } } } =~= StoreView::empty());
    }
}

/// While an association exists, deleting images first is refused with a
/// foreign-key violation on `image_tags.image_id`, deleting tags with one on
/// `image_tags.tag_id`, and a run in the reverse of the reset order stops at
/// its first statement.
pub proof fn lemma_images_first_refused(v: StoreView)
    requires
        v.wf(),
        v.links.len() > 0,
    ensures
        apply(v, Statement::DeleteAll(Table::Images)) == Err::<StoreView, DbError>(
            DbError::ForeignKeyViolation(Column::ImageTagsImageId),
        ),
        apply(v, Statement::DeleteAll(Table::Tags)) == Err::<StoreView, DbError>(
            DbError::ForeignKeyViolation(Column::ImageTagsTagId),
        ),
        apply_all(
            v,
            seq![
                Statement::DeleteAll(Table::Images),
                Statement::DeleteAll(Table::Tags),
                Statement::DeleteAll(Table::ImageTags),
            ],
        ) == Err::<StoreView, DbError>(DbError::ForeignKeyViolation(Column::ImageTagsImageId)),
{
    let p0 = Seq::<Statement>::empty();
    let p1 = p0.push(Statement::DeleteAll(Table::Images));
    let p2 = p1.push(Statement::DeleteAll(Table::Tags));
    let p3 = p2.push(Statement::DeleteAll(Table::ImageTags));
    lemma_apply_all_push(v, p0, Statement::DeleteAll(Table::Images));
    lemma_apply_all_push(v, p1, Statement::DeleteAll(Table::Tags));
    lemma_apply_all_push(v, p2, Statement::DeleteAll(Table::ImageTags));
    assert(p3 =~= seq![
        Statement::DeleteAll(Table::Images),
        Statement::DeleteAll(Table::Tags),
        Statement::DeleteAll(Table::ImageTags),
    ]);
}

/// An inserted image is read back, equal in every field, by its identifier.
pub proof fn lemma_image_round_trip(v: StoreView, img: Image)
    requires
        v.wf(),
        !has_image_id(v.images, img.id),
    ensures
        apply(v, Statement::InsertImage(img)) matches Ok(w) && find_image_in(w.images, img.id)
            == Some(img),
{
    assert(v.images.push(img).drop_last() =~= v.images);
}

/// An inserted tag is read back, equal in every field, by its identifier.
pub proof fn lemma_tag_round_trip(v: StoreView, t: Tag)
    requires
        v.wf(),
        !has_tag_id(v.tags, t.id),
    ensures
        apply(v, Statement::InsertTag(t)) matches Ok(w) && find_tag_in(w.tags, t.id) == Some(t),
{
    assert(v.tags.push(t).drop_last() =~= v.tags);
}

/// The statements of a reset, in order.
pub fn reset_plan() -> (r: Vec<Statement>)
    ensures
        r@ == reset_statements(),
{
    let mut r: Vec<Statement> = Vec::new();
    r.push(Statement::DeleteAll(Table::ImageTags));
    r.push(Statement::DeleteAll(Table::Tags));
    r.push(Statement::DeleteAll(Table::Images));
    assert(r@ =~= reset_statements());
    r
}

/// Empties the three relations, associations first; no step is refused.
pub fn reset_db(store: &mut Store)
    requires
        old(store)@.wf(),
    ensures
        final(store)@ == StoreView::empty(),
        final(store)@.wf(),
{
    proof {
        lemma_reset_clears(store@);
    }
    let plan = reset_plan();
    let _ = store.run(&plan);
}

/// The rows that seeding inserts: two images, two tags, and one association
/// from each image to its tag.
#[derive(Clone, Debug)]
pub struct TestData {
    pub img1: Image,
    pub img2: Image,
    pub cat: Tag,
    pub cute: Tag,
    pub link1: ImageTag,
    pub link2: ImageTag,
}

impl TestData {
    /// The seeded values: images "img.jpg" and "img.png", tags "cat" and
    /// "cute", the first image joined to "cat", the second to "cute", every
    /// identifier a random UUID.
    pub open spec fn is_seed(self) -> bool {
        &&& self.img1.url@ == "img.jpg"@
        &&& self.img2.url@ == "img.png"@
        &&& self.cat.label@ == "cat"@
        &&& self.cute.label@ == "cute"@
        &&& self.link1.image_id == self.img1.id && self.link1.tag_id == self.cat.id
        &&& self.link2.image_id == self.img2.id && self.link2.tag_id == self.cute.id
        &&& self.img1.id.is_random_uuid() && self.img2.id.is_random_uuid()
        &&& self.cat.id.is_random_uuid() && self.cute.id.is_random_uuid()
        &&& self.link1.id.is_random_uuid() && self.link2.id.is_random_uuid()
    }

    /// The inserts: images, then tags, then associations.
    pub open spec fn statements_spec(self) -> Seq<Statement> {
        seq![
            Statement::InsertImage(self.img1),
            Statement::InsertImage(self.img2),
            Statement::InsertTag(self.cat),
            Statement::InsertTag(self.cute),
            Statement::InsertImageTag(self.link1),
            Statement::InsertImageTag(self.link2),
        ]
    }

    /// None of the identifiers is taken in the store, and the two of each
    /// relation differ.
    pub open spec fn fresh_in(self, v: StoreView) -> bool {
        &&& !has_image_id(v.images, self.img1.id) && !has_image_id(v.images, self.img2.id)
        &&& self.img1.id != self.img2.id
        &&& !has_tag_id(v.tags, self.cat.id) && !has_tag_id(v.tags, self.cute.id)
        &&& self.cat.id != self.cute.id
        &&& !has_link_id(v.links, self.link1.id) && !has_link_id(v.links, self.link2.id)
        &&& self.link1.id != self.link2.id
    }

    /// The store with the rows appended.
    pub open spec fn seeded(self, v: StoreView) -> StoreView {
        StoreView {
            images: v.images.push(self.img1).push(self.img2),
            tags: v.tags.push(self.cat).push(self.cute),
            links: v.links.push(self.link1).push(self.link2),
        }
    }

    /// The inserts, in order.
    pub fn statements(&self) -> (r: Vec<Statement>)
        ensures
            r@ == self.statements_spec(),
    {
        let mut r: Vec<Statement> = Vec::new();
        r.push(Statement::InsertImage(copy_image(&self.img1)));
        r.push(Statement::InsertImage(copy_image(&self.img2)));
        r.push(Statement::InsertTag(copy_tag(&self.cat)));
        r.push(Statement::InsertTag(copy_tag(&self.cute)));
        r.push(Statement::InsertImageTag(self.link1));
        r.push(Statement::InsertImageTag(self.link2));
        assert(r@ =~= self.statements_spec());
        r
    }

    /// Runs the inserts. They all take effect exactly when the identifiers
    /// are fresh; otherwise the run stops at a duplicate key.
    pub fn insert_into(&self, store: &mut Store) -> (r: Result<(), DbError>)
        requires
            old(store)@.wf(),
            self.is_seed(),
        ensures
            final(store)@.wf(),
            r is Ok <==> self.fresh_in(old(store)@),
            r is Ok ==> final(store)@ == self.seeded(old(store)@),
            r matches Err(e) ==> e is DuplicateKey && apply_all(
                old(store)@,
                self.statements_spec(),
            ) == Err::<StoreView, DbError>(e),
            r is Err ==> exists|n: int|
                0 <= n < self.statements_spec().len() && apply_all(
                    old(store)@,
                    #[trigger] self.statements_spec().take(n),
                ) == Ok::<StoreView, DbError>(final(store)@),
    {
        proof {
            lemma_seed_outcome(store@, *self);
        }
        let plan = self.statements();
        store.run(&plan)
    }
}

proof fn lemma_has_image_push(s: Seq<Image>, img: Image, id: Id)
    ensures
        has_image_id(s.push(img), id) == (has_image_id(s, id) || img.id == id),
{
    if has_image_id(s, id) {
        let i = choose|i: int| 0 <= i < s.len() && (#[trigger] s[i]).id == id;
        assert(s.push(img)[i] == s[i]);
    }
    if img.id == id {
        assert(s.push(img)[s.len() as int] == img);
    }
    if has_image_id(s.push(img), id) {
        let i = choose|i: int| 0 <= i < s.len() + 1 && (#[trigger] s.push(img)[i]).id == id;
        if i < s.len() {
            assert(s.push(img)[i] == s[i]);
        }
    }
}

proof fn lemma_has_tag_push(s: Seq<Tag>, t: Tag, id: Id)
    ensures
        has_tag_id(s.push(t), id) == (has_tag_id(s, id) || t.id == id),
{
    if has_tag_id(s, id) {
        let i = choose|i: int| 0 <= i < s.len() && (#[trigger] s[i]).id == id;
        assert(s.push(t)[i] == s[i]);
    }
    if t.id == id {
        assert(s.push(t)[s.len() as int] == t);
    }
    if has_tag_id(s.push(t), id) {
        let i = choose|i: int| 0 <= i < s.len() + 1 && (#[trigger] s.push(t)[i]).id == id;
        if i < s.len() {
            assert(s.push(t)[i] == s[i]);
        }
    }
}

proof fn lemma_has_link_push(s: Seq<ImageTag>, l: ImageTag, id: Id)
    ensures
        has_link_id(s.push(l), id) == (has_link_id(s, id) || l.id == id),
{
    if has_link_id(s, id) {
        let i = choose|i: int| 0 <= i < s.len() && (#[trigger] s[i]).id == id;
        assert(s.push(l)[i] == s[i]);
    }
    if l.id == id {
        assert(s.push(l)[s.len() as int] == l);
    }
    if has_link_id(s.push(l), id) {
        let i = choose|i: int| 0 <= i < s.len() + 1 && (#[trigger] s.push(l)[i]).id == id;
        if i < s.len() {
            assert(s.push(l)[i] == s[i]);
        }
    }
}

/// What inserting the test data does: the rows are appended exactly when
/// their identifiers are fresh, and any refusal is a duplicate key.
proof fn lemma_seed_outcome(v: StoreView, d: TestData)
    requires
        v.wf(),
        d.is_seed(),
    ensures
        apply_all(v, d.statements_spec()) is Ok <==> d.fresh_in(v),
        d.fresh_in(v) ==> apply_all(v, d.statements_spec()) == Ok::<StoreView, DbError>(
            d.seeded(v),
        ),
        apply_all(v, d.statements_spec()) matches Err(e) ==> e is DuplicateKey,
{
    let s1 = Statement::InsertImage(d.img1);
    let s2 = Statement::InsertImage(d.img2);
    let s3 = Statement::InsertTag(d.cat);
    let s4 = Statement::InsertTag(d.cute);
    let s5 = Statement::InsertImageTag(d.link1);
    let s6 = Statement::InsertImageTag(d.link2);
    let p0 = Seq::<Statement>::empty();
    let p1 = p0.push(s1);
    let p2 = p1.push(s2);
    let p3 = p2.push(s3);
    let p4 = p3.push(s4);
    let p5 = p4.push(s5);
    let p6 = p5.push(s6);
    lemma_apply_all_push(v, p0, s1);
    lemma_apply_all_push(v, p1, s2);
    lemma_apply_all_push(v, p2, s3);
    lemma_apply_all_push(v, p3, s4);
    lemma_apply_all_push(v, p4, s5);
    lemma_apply_all_push(v, p5, s6);
    assert(p6 =~= d.statements_spec());
    let i1 = v.images.push(d.img1);
    let i2 = i1.push(d.img2);
    let t1 = v.tags.push(d.cat);
    let t2 = t1.push(d.cute);
    let l1 = v.links.push(d.link1);
    lemma_has_image_push(v.images, d.img1, d.img2.id);
    lemma_has_image_push(v.images, d.img1, d.img1.id);
    lemma_has_image_push(i1, d.img2, d.img1.id);
    lemma_has_image_push(i1, d.img2, d.img2.id);
    lemma_has_tag_push(v.tags, d.cat, d.cute.id);
    lemma_has_tag_push(v.tags, d.cat, d.cat.id);
    lemma_has_tag_push(t1, d.cute, d.cat.id);
    lemma_has_tag_push(t1, d.cute, d.cute.id);
    lemma_has_link_push(v.links, d.link1, d.link2.id);
    let w = d.seeded(v);
    assert(StoreView { links: l1.push(d.link2), ..StoreView { links: l1, ..StoreView { tags: t2, ..StoreView { tags: t1, ..StoreView { images: i2, ..StoreView { images: i1, ..v } } } } } } =~= w);
}

/// Draws identifiers for the test data.
pub fn test_data() -> (r: TestData)
    ensures
        r.is_seed(),
{
    let (n1, a1) = NewImage { url: "img.jpg" }.with_id();
    let img1 = n1.into_row(a1);
    let (n2, a2) = NewImage { url: "img.png" }.with_id();
    let img2 = n2.into_row(a2);
    let (n3, a3) = NewTag { label: "cat" }.with_id();
    let cat = n3.into_row(a3);
    let (n4, a4) = NewTag { label: "cute" }.with_id();
    let cute = n4.into_row(a4);
    let (n5, a5) = NewImageTag { image_id: img1.id, tag_id: cat.id }.with_id();
    let link1 = n5.into_row(a5);
    let (n6, a6) = NewImageTag { image_id: img2.id, tag_id: cute.id }.with_id();
    let link2 = n6.into_row(a6);
    TestData { img1, img2, cat, cute, link1, link2 }
}

/// No tag of the sequence is joined to the image: none is found for it.
proof fn lemma_none_linked(tags: Seq<Tag>, links: Seq<ImageTag>, image_id: Id)
    requires
        forall|i: int| 0 <= i < tags.len() ==> !is_linked(links, image_id, (#[trigger] tags[i]).id),
    ensures
        linked_tags(tags, links, image_id) == Seq::<Tag>::empty(),
    decreases tags.len(),
{
    if tags.len() > 0 {
        let rest = tags.drop_last();
        assert forall|i: int| 0 <= i < rest.len() implies !is_linked(
            links,
            image_id,
            (#[trigger] rest[i]).id,
        ) by {
            assert(rest[i] == tags[i]);
        }
        lemma_none_linked(rest, links, image_id);
        assert(!is_linked(links, image_id, tags[tags.len() - 1].id));
    }
}

/// With an image that the store did not hold, only the two new associations
/// can join it to a tag.
proof fn lemma_linked_fresh_image(
    v: StoreView,
    l1: ImageTag,
    l2: ImageTag,
    image_id: Id,
    tag_id: Id,
)
    requires
        v.wf(),
        !has_image_id(v.images, image_id),
    ensures
        is_linked(v.links.push(l1).push(l2), image_id, tag_id) == ((l1.image_id == image_id
            && l1.tag_id == tag_id) || (l2.image_id == image_id && l2.tag_id == tag_id)),
{
    let links = v.links.push(l1).push(l2);
    let n = v.links.len() as int;
    assert(links[n] == l1);
    assert(links[n + 1] == l2);
    if is_linked(links, image_id, tag_id) {
        let k = choose|k: int|
            0 <= k < links.len() && (#[trigger] links[k]).image_id == image_id && links[k].tag_id
                == tag_id;
        if k < n {
            assert(links[k] == v.links[k]);
            assert(has_image_id(v.images, v.links[k].image_id));
        }
    }
}

/// After the test data is inserted into a well-formed store, the first image
/// is joined to exactly the tag "cat", and the second to exactly "cute".
pub proof fn lemma_seed_lookup(v: StoreView, d: TestData)
    requires
        v.wf(),
        d.is_seed(),
        apply_all(v, d.statements_spec()) is Ok,
    ensures
        apply_all(v, d.statements_spec()) == Ok::<StoreView, DbError>(d.seeded(v)),
        linked_tags(d.seeded(v).tags, d.seeded(v).links, d.img1.id) == seq![d.cat],
        linked_tags(d.seeded(v).tags, d.seeded(v).links, d.img2.id) == seq![d.cute],
{
    lemma_seed_outcome(v, d);
    let w = d.seeded(v);
    let t1 = v.tags.push(d.cat);
    assert(w.tags.drop_last() =~= t1);
    assert(t1.drop_last() =~= v.tags);
    lemma_linked_fresh_image(v, d.link1, d.link2, d.img1.id, d.cute.id);
    lemma_linked_fresh_image(v, d.link1, d.link2, d.img1.id, d.cat.id);
    lemma_linked_fresh_image(v, d.link1, d.link2, d.img2.id, d.cute.id);
    lemma_linked_fresh_image(v, d.link1, d.link2, d.img2.id, d.cat.id);
    assert forall|i: int| 0 <= i < v.tags.len() implies !is_linked(
        w.links,
        d.img1.id,
        (#[trigger] v.tags[i]).id,
    ) && !is_linked(w.links, d.img2.id, v.tags[i].id) by {
        lemma_linked_fresh_image(v, d.link1, d.link2, d.img1.id, v.tags[i].id);
        lemma_linked_fresh_image(v, d.link1, d.link2, d.img2.id, v.tags[i].id);
    }
    lemma_none_linked(v.tags, w.links, d.img1.id);
    lemma_none_linked(v.tags, w.links, d.img2.id);
    assert(d.fresh_in(v));
    assert(w.tags.last() == d.cute);
    assert(t1.last() == d.cat);
    assert(linked_tags(t1, w.links, d.img1.id) == Seq::<Tag>::empty().push(d.cat));
    assert(linked_tags(w.tags, w.links, d.img1.id) == Seq::<Tag>::empty().push(d.cat));
    assert(linked_tags(t1, w.links, d.img2.id) == Seq::<Tag>::empty());
    assert(linked_tags(w.tags, w.links, d.img2.id) == Seq::<Tag>::empty().push(d.cute));
    assert(Seq::<Tag>::empty().push(d.cat) =~= seq![d.cat]);
    assert(Seq::<Tag>::empty().push(d.cute) =~= seq![d.cute]);
}

/// Inserts two images and two tags, then one association from each image to
/// its tag, and returns the two images. Identifiers are drawn at random, so
/// a clash with a row already stored is possible: the only refusal is then a
/// duplicate key, and the rows inserted before it stay.
pub fn insert_test_data(store: &mut Store) -> (r: Result<(Image, Image), DbError>)
    requires
        old(store)@.wf(),
    ensures
        final(store)@.wf(),
        r matches Ok((img1, img2)) ==> exists|d: TestData|
            #![trigger d.seeded(old(store)@)]
            d.is_seed() && d.img1 == img1 && d.img2 == img2 && d.fresh_in(old(store)@)
                && final(store)@ == d.seeded(old(store)@),
        r matches Err(e) ==> e is DuplicateKey && exists|d: TestData|
            #![trigger d.statements_spec()]
            d.is_seed() && apply_all(old(store)@, d.statements_spec()) == Err::<StoreView, DbError>(
                e,
            ) && exists|n: int|
                0 <= n < d.statements_spec().len() && apply_all(
                    old(store)@,
                    #[trigger] d.statements_spec().take(n),
                ) == Ok::<StoreView, DbError>(final(store)@),
        r matches Ok((img1, img2)) ==> {
            let w = final(store)@;
            &&& img1.url@ == "img.jpg"@ && img2.url@ == "img.png"@
            &&& w.images == old(store)@.images.push(img1).push(img2)
            &&& w.tags.len() == old(store)@.tags.len() + 2
            &&& w.links.len() == old(store)@.links.len() + 2
            &&& find_image_in(w.images, img1.id) == Some(img1)
            &&& find_image_in(w.images, img2.id) == Some(img2)
            &&& linked_tags(w.tags, w.links, img1.id).len() == 1
            &&& linked_tags(w.tags, w.links, img1.id)[0].label@ == "cat"@
            &&& linked_tags(w.tags, w.links, img2.id).len() == 1
            &&& linked_tags(w.tags, w.links, img2.id)[0].label@ == "cute"@
        },
{
    let d = test_data();
    let ghost v = store@;
    match d.insert_into(store) {
        Ok(()) => {
            proof {
                lemma_seed_outcome(v, d);
                lemma_seed_lookup(v, d);
                let i1 = v.images.push(d.img1);
                assert(d.seeded(v).images.drop_last() =~= i1);
                assert(d.seeded(v).images.last() == d.img2);
                assert(i1.last() == d.img1);
                assert(find_image_in(i1, d.img1.id) == Some(d.img1));
                assert(find_image_in(d.seeded(v).images, d.img2.id) == Some(d.img2));
                assert(find_image_in(d.seeded(v).images, d.img1.id) == Some(d.img1));
                assert(d.is_seed() && d.fresh_in(v) && store@ == d.seeded(v));
            }
            Ok((d.img1, d.img2))
        },
        Err(e) => Err(e),
    }
}

/// The tags that some association joins to the image.
pub fn get_tags_for_image(img: &Image, store: &Store) -> (r: Vec<Tag>)
    ensures
        r@ == linked_tags(store@.tags, store@.links, img.id),
{
    store.tags_for_image(img.id)
}

} // verus!
