//! The three relations, their columns, and which columns join to which.
use vstd::prelude::*;

verus! {

/// A relation of the schema.
#[derive(Clone, Copy, Debug, PartialEq, Eq, Structural)]
pub enum Table {
    /// `images(id, url)`
    Images,
    /// `tags(id, label)`
    Tags,
    /// `image_tags(id, image_id, tag_id)`
    ImageTags,
}

/// A column of one of the relations.
#[derive(Clone, Copy, Debug, PartialEq, Eq, Structural)]
pub enum Column {
    ImagesId,
    ImagesUrl,
    TagsId,
    TagsLabel,
    ImageTagsId,
    ImageTagsImageId,
    ImageTagsTagId,
}

/// The relation that a column belongs to.
pub open spec fn table_of(c: Column) -> Table {
    match c {
        Column::ImagesId | Column::ImagesUrl => Table::Images,
        Column::TagsId | Column::TagsLabel => Table::Tags,
        _ => Table::ImageTags,
    }
}

/// The identifier column of a relation.
pub open spec fn primary_key_of(t: Table) -> Column {
    match t {
        Table::Images => Column::ImagesId,
        Table::Tags => Column::TagsId,
        Table::ImageTags => Column::ImageTagsId,
    }
}

/// The column that a foreign-key column joins to, if it is one.
pub open spec fn references_of(c: Column) -> Option<Column> {
    match c {
        Column::ImageTagsImageId => Some(Column::ImagesId),
        Column::ImageTagsTagId => Some(Column::TagsId),
        _ => None,
    }
}

impl Table {
    pub fn primary_key(self) -> (r: Column)
        ensures
            r == primary_key_of(self),
            table_of(r) == self,
    {
        match self {
            Table::Images => Column::ImagesId,
            Table::Tags => Column::TagsId,
            Table::ImageTags => Column::ImageTagsId,
        }
    }
}

impl Column {
    pub fn table(self) -> (r: Table)
        ensures
            r == table_of(self),
    {
        match self {
            Column::ImagesId | Column::ImagesUrl => Table::Images,
            Column::TagsId | Column::TagsLabel => Table::Tags,
            _ => Table::ImageTags,
        }
    }

    /// The column this one joins to: `image_tags.image_id` to `images.id`,
    /// `image_tags.tag_id` to `tags.id`; no other column is a foreign key.
    pub fn references(self) -> (r: Option<Column>)
        ensures
            r == references_of(self),
            r matches Some(k) ==> k == primary_key_of(table_of(k)) && table_of(self)
                == Table::ImageTags,
    {
        match self {
            Column::ImageTagsImageId => Some(Column::ImagesId),
            Column::ImageTagsTagId => Some(Column::TagsId),
            _ => None,
        }
    }
}

} // verus!
