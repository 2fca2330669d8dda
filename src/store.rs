//! A store of the three relations that enforces the schema's integrity rules:
//! identifiers are unique within a relation, and every association refers to
//! an existing image and an existing tag.
use crate::ident::Id;
use crate::models::{Image, ImageTag, Tag};
use crate::schema::{Column, Table};
use vstd::prelude::*;

verus! {

/// A statement against the store.
#[derive(Clone, Debug)]
pub enum Statement {
    /// Delete every row of a relation.
    DeleteAll(Table),
    InsertImage(Image),
    InsertTag(Tag),
    InsertImageTag(ImageTag),
}

/// Why a statement was refused.
#[derive(Clone, Copy, Debug, PartialEq, Eq, Structural)]
pub enum DbError {
    /// The relation already holds a row with the new row's identifier.
    DuplicateKey(Table),
    /// The foreign-key column would refer to a row that does not exist.
    ForeignKeyViolation(Column),
}

/// The contents of the three relations, in order of insertion.
#[verifier::ext_equal]
pub struct StoreView {
    pub images: Seq<Image>,
    pub tags: Seq<Tag>,
    pub links: Seq<ImageTag>,
}

pub open spec fn has_image_id(images: Seq<Image>, id: Id) -> bool {
    exists|i: int| 0 <= i < images.len() && (#[trigger] images[i]).id == id
}

pub open spec fn has_tag_id(tags: Seq<Tag>, id: Id) -> bool {
    exists|i: int| 0 <= i < tags.len() && (#[trigger] tags[i]).id == id
}

pub open spec fn has_link_id(links: Seq<ImageTag>, id: Id) -> bool {
    exists|i: int| 0 <= i < links.len() && (#[trigger] links[i]).id == id
}

/// Whether some association joins the image to the tag.
pub open spec fn is_linked(links: Seq<ImageTag>, image_id: Id, tag_id: Id) -> bool {
    exists|k: int|
        0 <= k < links.len() && (#[trigger] links[k]).image_id == image_id && links[k].tag_id
            == tag_id
}

/// The tags joined to the image by some association, in the tags' order.
pub open spec fn linked_tags(tags: Seq<Tag>, links: Seq<ImageTag>, image_id: Id) -> Seq<Tag>
    decreases tags.len(),
{
    if tags.len() == 0 {
        Seq::empty()
    } else {
        let rest = linked_tags(tags.drop_last(), links, image_id);
        if is_linked(links, image_id, tags.last().id) {
            rest.push(tags.last())
        } else {
            rest
        }
    }
}

/// The last image with the identifier, if any (with unique identifiers: the one).
pub open spec fn find_image_in(images: Seq<Image>, id: Id) -> Option<Image>
    decreases images.len(),
{
    if images.len() == 0 {
        None
    } else if images.last().id == id {
        Some(images.last())
    } else {
        find_image_in(images.drop_last(), id)
    }
}

/// The last tag with the identifier, if any (with unique identifiers: the one).
pub open spec fn find_tag_in(tags: Seq<Tag>, id: Id) -> Option<Tag>
    decreases tags.len(),
{
    if tags.len() == 0 {
        None
    } else if tags.last().id == id {
        Some(tags.last())
    } else {
        find_tag_in(tags.drop_last(), id)
    }
}

impl StoreView {
    pub open spec fn empty() -> StoreView {
        StoreView { images: Seq::empty(), tags: Seq::empty(), links: Seq::empty() }
    }

    /// The number of rows of a relation.
    pub open spec fn rows(self, t: Table) -> nat {
        match t {
            Table::Images => self.images.len(),
            Table::Tags => self.tags.len(),
            Table::ImageTags => self.links.len(),
        }
    }

    /// Identifiers are unique within each relation, and every association
    /// refers to an existing image and an existing tag.
    pub open spec fn wf(self) -> bool {
        &&& forall|i: int, j: int|
            0 <= i < j < self.images.len() ==> (#[trigger] self.images[i]).id != (#[trigger] self.images[j]).id
        &&& forall|i: int, j: int|
            0 <= i < j < self.tags.len() ==> (#[trigger] self.tags[i]).id != (#[trigger] self.tags[j]).id
        &&& forall|i: int, j: int|
            0 <= i < j < self.links.len() ==> (#[trigger] self.links[i]).id != (#[trigger] self.links[j]).id
        &&& forall|k: int|
            0 <= k < self.links.len() ==> has_image_id(self.images, (#[trigger] self.links[k]).image_id)
                && has_tag_id(self.tags, self.links[k].tag_id)
    }
}

/// What a statement does to the store: the new contents, or the error that
/// refuses it (the store then stays as it was).
pub open spec fn apply(v: StoreView, st: Statement) -> Result<StoreView, DbError> {
    match st {
        Statement::DeleteAll(Table::ImageTags) => Ok(StoreView { links: Seq::empty(), ..v }),
        Statement::DeleteAll(Table::Tags) => if v.links.len() > 0 {
            Err(DbError::ForeignKeyViolation(Column::ImageTagsTagId))
        } else {
            Ok(StoreView { tags: Seq::empty(), ..v })
        },
        Statement::DeleteAll(Table::Images) => if v.links.len() > 0 {
            Err(DbError::ForeignKeyViolation(Column::ImageTagsImageId))
        } else {
            Ok(StoreView { images: Seq::empty(), ..v })
        },
        Statement::InsertImage(img) => if has_image_id(v.images, img.id) {
            Err(DbError::DuplicateKey(Table::Images))
        } else {
            Ok(StoreView { images: v.images.push(img), ..v })
        },
        Statement::InsertTag(t) => if has_tag_id(v.tags, t.id) {
            Err(DbError::DuplicateKey(Table::Tags))
        } else {
            Ok(StoreView { tags: v.tags.push(t), ..v })
        },
        Statement::InsertImageTag(l) => if has_link_id(v.links, l.id) {
            Err(DbError::DuplicateKey(Table::ImageTags))
        } else if !has_image_id(v.images, l.image_id) {
            Err(DbError::ForeignKeyViolation(Column::ImageTagsImageId))
        } else if !has_tag_id(v.tags, l.tag_id) {
            Err(DbError::ForeignKeyViolation(Column::ImageTagsTagId))
        } else {
            Ok(StoreView { links: v.links.push(l), ..v })
        },
    }
}

/// Statements applied in order, up to the first that is refused.
pub open spec fn apply_all(v: StoreView, plan: Seq<Statement>) -> Result<StoreView, DbError>
    decreases plan.len(),
{
    if plan.len() == 0 {
        Ok(v)
    } else {
        match apply_all(v, plan.drop_last()) {
            Ok(w) => apply(w, plan.last()),
            Err(e) => Err(e),
        }
    }
}

/// Every statement keeps the store well formed.
pub proof fn lemma_apply_wf(v: StoreView, st: Statement)
    requires
        v.wf(),
    ensures
        apply(v, st) matches Ok(w) ==> w.wf(),
{
    if let Ok(w) = apply(v, st) {
        assert forall|k: int| 0 <= k < w.links.len() implies has_image_id(
            w.images,
            (#[trigger] w.links[k]).image_id,
        ) && has_tag_id(w.tags, w.links[k].tag_id) by {
            if k < v.links.len() {
                assert(w.links[k] == v.links[k]);
                let i = choose|i: int| 0 <= i < v.images.len() && (#[trigger] v.images[i]).id == v.links[k].image_id;
                let j = choose|j: int| 0 <= j < v.tags.len() && (#[trigger] v.tags[j]).id == v.links[k].tag_id;
                assert(w.images[i] == v.images[i]);
                assert(w.tags[j] == v.tags[j]);
            }
        }
    }
}

/// A refusal ends the run: statements after it do not change the outcome.
pub proof fn lemma_apply_all_err_stays(v: StoreView, plan: Seq<Statement>, n: int)
    requires
        0 <= n <= plan.len(),
        apply_all(v, plan.take(n)) is Err,
    ensures
        apply_all(v, plan) == apply_all(v, plan.take(n)),
    decreases plan.len() - n,
{
    if n < plan.len() {
        assert(plan.take(n + 1).drop_last() =~= plan.take(n));
        lemma_apply_all_err_stays(v, plan, n + 1);
    } else {
        assert(plan.take(n) =~= plan);
    }
}

/// The three relations, held in memory.
pub struct Store {
    images: Vec<Image>,
    tags: Vec<Tag>,
    links: Vec<ImageTag>,
}

impl View for Store {
    type V = StoreView;

    closed spec fn view(&self) -> StoreView {
        StoreView { images: self.images@, tags: self.tags@, links: self.links@ }
    }
}

pub(crate) fn copy_image(img: &Image) -> (r: Image)
    ensures
        r == *img,
{
    Image { id: img.id, url: img.url.clone() }
}

pub(crate) fn copy_tag(t: &Tag) -> (r: Tag)
    ensures
        r == *t,
{
    Tag { id: t.id, label: t.label.clone() }
}

impl Store {
    /// A store with three empty relations.
    pub fn new() -> (r: Store)
        ensures
            r@ == StoreView::empty(),
            r@.wf(),
    {
        let r = Store { images: Vec::new(), tags: Vec::new(), links: Vec::new() };
        assert(r@ =~= StoreView::empty());
        r
    }

    /// The number of rows of a relation.
    pub fn count(&self, t: Table) -> (r: usize)
        ensures
            r == self@.rows(t),
    {
        match t {
            Table::Images => self.images.len(),
            Table::Tags => self.tags.len(),
            Table::ImageTags => self.links.len(),
        }
    }

    fn has_image(&self, id: Id) -> (r: bool)
        ensures
            r == has_image_id(self@.images, id),
    {
        let mut i: usize = 0;
        while i < self.images.len()
            invariant
                0 <= i <= self.images@.len(),
                forall|j: int| 0 <= j < i ==> (#[trigger] self.images@[j]).id != id,
            decreases self.images.len() - i,
        {
            if self.images[i].id == id {
                return true;
            }
            i += 1;
        }
        false
    }

    fn has_tag(&self, id: Id) -> (r: bool)
        ensures
            r == has_tag_id(self@.tags, id),
    {
        let mut i: usize = 0;
        while i < self.tags.len()
            invariant
                0 <= i <= self.tags@.len(),
                forall|j: int| 0 <= j < i ==> (#[trigger] self.tags@[j]).id != id,
            decreases self.tags.len() - i,
        {
            if self.tags[i].id == id {
                return true;
            }
            i += 1;
        }
        false
    }

    fn has_link(&self, id: Id) -> (r: bool)
        ensures
            r == has_link_id(self@.links, id),
    {
        let mut i: usize = 0;
        while i < self.links.len()
            invariant
                0 <= i <= self.links@.len(),
                forall|j: int| 0 <= j < i ==> (#[trigger] self.links@[j]).id != id,
            decreases self.links.len() - i,
        {
            if self.links[i].id == id {
                return true;
            }
            i += 1;
        }
        false
    }

    /// Whether some association joins the image to the tag.
    pub fn linked(&self, image_id: Id, tag_id: Id) -> (r: bool)
        ensures
            r == is_linked(self@.links, image_id, tag_id),
    {
        let mut i: usize = 0;
        while i < self.links.len()
            invariant
                0 <= i <= self.links@.len(),
                forall|j: int|
                    0 <= j < i ==> !((#[trigger] self.links@[j]).image_id == image_id
                        && self.links@[j].tag_id == tag_id),
            decreases self.links.len() - i,
        {
            if self.links[i].image_id == image_id && self.links[i].tag_id == tag_id {
                return true;
            }
            i += 1;
        }
        false
    }

    /// Runs one statement: it takes effect exactly when `apply` accepts it,
    /// and a refused statement leaves the store unchanged.
    pub fn execute(&mut self, st: &Statement) -> (r: Result<(), DbError>)
        requires
            old(self)@.wf(),
        ensures
            final(self)@.wf(),
            match apply(old(self)@, *st) {
                Ok(w) => r is Ok && final(self)@ == w,
                Err(e) => r == Err::<(), DbError>(e) && final(self)@ == old(self)@,
            },
    {
        proof {
            lemma_apply_wf(self@, *st);
        }
        let ghost v = self@;
        match st {
            Statement::DeleteAll(Table::ImageTags) => {
                self.links = Vec::new();
                assert(self@ =~= StoreView { links: Seq::empty(), ..v });
                Ok(())
            },
            Statement::DeleteAll(Table::Tags) => {
                if self.links.len() > 0 {
                    Err(DbError::ForeignKeyViolation(Column::ImageTagsTagId))
                } else {
                    self.tags = Vec::new();
                    assert(self@ =~= StoreView { tags: Seq::empty(), ..v });
                    Ok(())
                }
            },
            Statement::DeleteAll(Table::Images) => {
                if self.links.len() > 0 {
                    Err(DbError::ForeignKeyViolation(Column::ImageTagsImageId))
                } else {
                    self.images = Vec::new();
                    assert(self@ =~= StoreView { images: Seq::empty(), ..v });
                    Ok(())
                }
            },
            Statement::InsertImage(img) => {
                if self.has_image(img.id) {
                    Err(DbError::DuplicateKey(Table::Images))
                } else {
                    self.images.push(copy_image(img));
                    assert(self@ =~= StoreView { images: v.images.push(*img), ..v });
                    Ok(())
                }
            },
            Statement::InsertTag(t) => {
                if self.has_tag(t.id) {
                    Err(DbError::DuplicateKey(Table::Tags))
                } else {
                    self.tags.push(copy_tag(t));
                    assert(self@ =~= StoreView { tags: v.tags.push(*t), ..v });
                    Ok(())
                }
            },
            Statement::InsertImageTag(l) => {
                if self.has_link(l.id) {
                    Err(DbError::DuplicateKey(Table::ImageTags))
                } else if !self.has_image(l.image_id) {
                    Err(DbError::ForeignKeyViolation(Column::ImageTagsImageId))
                } else if !self.has_tag(l.tag_id) {
                    Err(DbError::ForeignKeyViolation(Column::ImageTagsTagId))
                } else {
                    self.links.push(*l);
                    assert(self@ =~= StoreView { links: v.links.push(*l), ..v });
                    Ok(())
                }
            },
        }
    }

    /// Runs statements in order and stops at the first refusal, whose error
    /// it returns; the statements before it keep their effect.
    pub fn run(&mut self, plan: &Vec<Statement>) -> (r: Result<(), DbError>)
        requires
            old(self)@.wf(),
        ensures
            final(self)@.wf(),
            match apply_all(old(self)@, plan@) {
                Ok(w) => r is Ok && final(self)@ == w,
                Err(e) => r == Err::<(), DbError>(e),
            },
            r is Err ==> exists|n: int|
                0 <= n < plan@.len() && apply_all(old(self)@, #[trigger] plan@.take(n)) == Ok::<
                    StoreView,
                    DbError,
                >(final(self)@),
    {
        let ghost v0 = self@;
        let mut i: usize = 0;
        assert(plan@.take(0) =~= Seq::<Statement>::empty());
        while i < plan.len()
            invariant
                0 <= i <= plan@.len(),
                self@.wf(),
                v0 == old(self)@,
                apply_all(v0, plan@.take(i as int)) == Ok::<StoreView, DbError>(self@),
            decreases plan.len() - i,
        {
            let ghost before = self@;
            assert(plan@.take(i + 1).drop_last() =~= plan@.take(i as int));
            assert(plan@.take(i + 1).last() == plan@[i as int]);
            let r = self.execute(&plan[i]);
            match r {
                Err(e) => {
                    proof {
                        lemma_apply_all_err_stays(v0, plan@, i + 1);
                        assert(apply_all(v0, plan@.take(i as int)) == Ok::<StoreView, DbError>(self@));
                    }
                    return Err(e);
                },
                Ok(()) => {},
            }
            i += 1;
        }
        assert(plan@.take(plan@.len() as int) =~= plan@);
        Ok(())
    }
    /// The image with the identifier, if the store holds one.
    pub fn find_image(&self, id: Id) -> (r: Option<Image>)
        ensures
            r == find_image_in(self@.images, id),
    {
        let mut i: usize = self.images.len();
        assert(self@.images.take(i as int) =~= self@.images);
        while i > 0
            invariant
                0 <= i <= self.images@.len(),
                find_image_in(self@.images, id) == find_image_in(self@.images.take(i as int), id),
            decreases i,
        {
            assert(self@.images.take(i as int).drop_last() =~= self@.images.take(i - 1));
            i -= 1;
            if self.images[i].id == id {
                return Some(copy_image(&self.images[i]));
            }
        }
        None
    }

    /// The tag with the identifier, if the store holds one.
    pub fn find_tag(&self, id: Id) -> (r: Option<Tag>)
        ensures
            r == find_tag_in(self@.tags, id),
    {
        let mut i: usize = self.tags.len();
        assert(self@.tags.take(i as int) =~= self@.tags);
        while i > 0
            invariant
                0 <= i <= self.tags@.len(),
                find_tag_in(self@.tags, id) == find_tag_in(self@.tags.take(i as int), id),
            decreases i,
        {
            assert(self@.tags.take(i as int).drop_last() =~= self@.tags.take(i - 1));
            i -= 1;
            if self.tags[i].id == id {
                return Some(copy_tag(&self.tags[i]));
            }
        }
        None
    }

    /// The tags that some association joins to the image, in the tags' order.
    pub fn tags_for_image(&self, image_id: Id) -> (r: Vec<Tag>)
        ensures
            r@ == linked_tags(self@.tags, self@.links, image_id),
    {
        let mut out: Vec<Tag> = Vec::new();
        let mut i: usize = 0;
        assert(self@.tags.take(0) =~= Seq::<Tag>::empty());
        while i < self.tags.len()
            invariant
                0 <= i <= self.tags@.len(),
                out@ == linked_tags(self@.tags.take(i as int), self@.links, image_id),
            decreases self.tags.len() - i,
        {
            assert(self@.tags.take(i + 1).drop_last() =~= self@.tags.take(i as int));
            if self.linked(image_id, self.tags[i].id) {
                out.push(copy_tag(&self.tags[i]));
            }
            i += 1;
        }
        assert(self@.tags.take(self@.tags.len() as int) =~= self@.tags);
        out
    }
}

} // verus!
