//! Record shapes: the persisted rows, the insertable records without an
//! identifier, and the capability that gives an insertable record its
//! identifier.
use crate::ident::{id_for, Id, IdAssignment};
use crate::schema::{primary_key_of, Column, Table};
use vstd::prelude::*;

verus! {

/// A row of `images`.
#[derive(Clone, Debug, PartialEq)]
pub struct Image {
    pub id: Id,
    pub url: String,
}

/// An image to insert: its identifier is assigned at insert time.
pub struct NewImage<'a> {
    pub url: &'a str,
}

/// A row of `tags`.
#[derive(Clone, Debug, PartialEq)]
pub struct Tag {
    pub id: Id,
    pub label: String,
}

/// A tag to insert.
pub struct NewTag<'a> {
    pub label: &'a str,
}

/// A row of `image_tags`: one edge between an image and a tag.
#[derive(Clone, Copy, Debug, PartialEq, Eq, Structural)]
pub struct ImageTag {
    pub id: Id,
    pub image_id: Id,
    pub tag_id: Id,
}

/// An association to insert.
#[derive(Clone, Copy, Debug, PartialEq, Eq, Structural)]
pub struct NewImageTag {
    pub image_id: Id,
    pub tag_id: Id,
}

/// An insertable record that names the identifier column of its relation,
/// and so can be paired with a freshly generated identifier.
pub trait WithId: Sized {
    /// The relation the record is inserted into.
    spec fn target() -> Table;

    /// The identifier column of the record's relation.
    fn id() -> (r: Column)
        ensures
            r == primary_key_of(Self::target()),
    ;

    /// The record, paired with the assignment of a fresh random identifier to
    /// the identifier column of its relation.
    fn with_id(self) -> (r: (Self, IdAssignment))
        ensures
            r.0 == self,
            r.1.column == primary_key_of(Self::target()),
            r.1.value.is_random_uuid(),
    {
        let c = Self::id();
        (self, id_for(c))
    }
}

impl<'a> WithId for NewImage<'a> {
    open spec fn target() -> Table {
        Table::Images
    }

    fn id() -> (r: Column) {
        Column::ImagesId
    }
}

impl<'a> WithId for NewTag<'a> {
    open spec fn target() -> Table {
        Table::Tags
    }

    fn id() -> (r: Column) {
        Column::TagsId
    }
}

impl WithId for NewImageTag {
    open spec fn target() -> Table {
        Table::ImageTags
    }

    fn id() -> (r: Column) {
        Column::ImageTagsId
    }
}

impl<'a> NewImage<'a> {
    /// The row that inserting the record with the given identifier creates.
    pub fn into_row(self, a: IdAssignment) -> (r: Image)
        requires
            a.column == Column::ImagesId,
        ensures
            r.id == a.value,
            r.url@ == self.url@,
    {
        Image { id: a.value, url: self.url.to_owned() }
    }
}

impl<'a> NewTag<'a> {
    /// The row that inserting the record with the given identifier creates.
    pub fn into_row(self, a: IdAssignment) -> (r: Tag)
        requires
            a.column == Column::TagsId,
        ensures
            r.id == a.value,
            r.label@ == self.label@,
    {
        Tag { id: a.value, label: self.label.to_owned() }
    }
}

impl NewImageTag {
    /// The row that inserting the record with the given identifier creates.
    pub fn into_row(self, a: IdAssignment) -> (r: ImageTag)
        requires
            a.column == Column::ImageTagsId,
        ensures
            r.id == a.value,
            r.image_id == self.image_id,
            r.tag_id == self.tag_id,
    {
        ImageTag { id: a.value, image_id: self.image_id, tag_id: self.tag_id }
    }
}

} // verus!
