use tagged_images::ident::{id_for, new_id, Id};
use tagged_images::models::{
    Image, ImageTag, NewImage, NewImageTag, NewTag, Tag, WithId,
};
use tagged_images::routine::{
    get_tags_for_image, insert_test_data, reset_db, reset_plan, test_data, TestData,
};
use tagged_images::schema::{Column, Table};
use tagged_images::store::{DbError, Statement, Store};

fn id(n: u128) -> Id {
    Id::from_bits(n)
}

fn image(n: u128, url: &str) -> Image {
    Image { id: id(n), url: url.to_string() }
}

fn tag(n: u128, label: &str) -> Tag {
    Tag { id: id(n), label: label.to_string() }
}

fn link(n: u128, image_id: u128, tag_id: u128) -> ImageTag {
    ImageTag { id: id(n), image_id: id(image_id), tag_id: id(tag_id) }
}

fn seeded_store() -> (Store, Image, Image) {
    let mut store = Store::new();
    let (img1, img2) = insert_test_data(&mut store).expect("seeding an empty store");
    (store, img1, img2)
}

fn counts(store: &Store) -> (usize, usize, usize) {
    (
        store.count(Table::Images),
        store.count(Table::Tags),
        store.count(Table::ImageTags),
    )
}

#[test]
fn with_id_gives_random_uuid_for_every_record_kind() {
    let (rec, a) = NewImage { url: "a.jpg" }.with_id();
    assert_eq!(rec.url, "a.jpg");
    assert_eq!(a.column, Column::ImagesId);
    assert!(a.value.is_valid());
    let (rec, b) = NewTag { label: "dog" }.with_id();
    assert_eq!(rec.label, "dog");
    assert_eq!(b.column, Column::TagsId);
    assert!(b.value.is_valid());
    let (rec, c) = NewImageTag { image_id: a.value, tag_id: b.value }.with_id();
    assert_eq!(rec.image_id, a.value);
    assert_eq!(c.column, Column::ImageTagsId);
    assert!(c.value.is_valid());
    assert_ne!(a.value, b.value);
    assert_ne!(b.value, c.value);
}

#[test]
fn drawn_ids_are_version_four_and_distinct() {
    let mut seen: Vec<Id> = Vec::new();
    for _ in 0..100 {
        let x = new_id();
        assert!(x.is_valid());
        assert_eq!((x.bits >> 76) & 0xf, 4);
        assert_eq!((x.bits >> 62) & 0x3, 2);
        assert!(!seen.contains(&x));
        seen.push(x);
    }
    let a = id_for(Column::TagsId);
    assert_eq!(a.column, Column::TagsId);
    assert!(a.value.is_valid());
}

#[test]
fn id_validity_on_fixed_values() {
    assert!(!id(0).is_valid());
    assert!(id(0x67e55044_10b1_426f_9247_bb680e5fe0c8).is_valid());
    // version 1
    assert!(!id(0x67e55044_10b1_126f_9247_bb680e5fe0c8).is_valid());
    // variant bits 0b11
    assert!(!id(0x67e55044_10b1_426f_c247_bb680e5fe0c8).is_valid());
    assert_eq!(id(7).bits, 7);
}

#[test]
fn schema_keys_and_joins() {
    assert_eq!(Table::Images.primary_key(), Column::ImagesId);
    assert_eq!(Table::Tags.primary_key(), Column::TagsId);
    assert_eq!(Table::ImageTags.primary_key(), Column::ImageTagsId);
    assert_eq!(Column::ImageTagsImageId.references(), Some(Column::ImagesId));
    assert_eq!(Column::ImageTagsTagId.references(), Some(Column::TagsId));
    assert_eq!(Column::ImagesUrl.references(), None);
    assert_eq!(Column::ImageTagsId.references(), None);
    assert_eq!(Column::TagsLabel.table(), Table::Tags);
    assert_eq!(Column::ImageTagsTagId.table(), Table::ImageTags);
    assert_eq!(Column::ImagesUrl.table(), Table::Images);
}

#[test]
fn into_row_carries_the_assigned_id() {
    let (rec, a) = NewImage { url: "img.jpg" }.with_id();
    let img = rec.into_row(a);
    assert_eq!(img.id, a.value);
    assert_eq!(img.url, "img.jpg");
    let (rec, b) = NewTag { label: "cat" }.with_id();
    let t = rec.into_row(b);
    assert_eq!(t.id, b.value);
    assert_eq!(t.label, "cat");
    let (rec, c) = NewImageTag { image_id: img.id, tag_id: t.id }.with_id();
    let l = rec.into_row(c);
    assert_eq!(l, ImageTag { id: c.value, image_id: img.id, tag_id: t.id });
}

#[test]
fn new_store_is_empty() {
    let store = Store::new();
    assert_eq!(counts(&store), (0, 0, 0));
}

#[test]
fn reset_empties_every_relation() {
    let (mut store, img1, _) = seeded_store();
    assert_eq!(counts(&store), (2, 2, 2));
    reset_db(&mut store);
    assert_eq!(counts(&store), (0, 0, 0));
    assert_eq!(store.find_image(img1.id), None);
    reset_db(&mut store);
    assert_eq!(counts(&store), (0, 0, 0));
}

#[test]
fn reset_plan_deletes_associations_first() {
    let plan = reset_plan();
    assert_eq!(plan.len(), 3);
    assert!(matches!(plan[0], Statement::DeleteAll(Table::ImageTags)));
    assert!(matches!(plan[1], Statement::DeleteAll(Table::Tags)));
    assert!(matches!(plan[2], Statement::DeleteAll(Table::Images)));
    let (mut store, _, _) = seeded_store();
    assert_eq!(store.run(&plan), Ok(()));
    assert_eq!(counts(&store), (0, 0, 0));
}

#[test]
fn seeded_images_have_one_tag_each() {
    let (store, img1, img2) = seeded_store();
    assert_eq!(img1.url, "img.jpg");
    assert_eq!(img2.url, "img.png");
    let t1 = get_tags_for_image(&img1, &store);
    assert_eq!(t1.len(), 1);
    assert_eq!(t1[0].label, "cat");
    let t2 = get_tags_for_image(&img2, &store);
    assert_eq!(t2.len(), 1);
    assert_eq!(t2[0].label, "cute");
    assert_ne!(t1[0].id, t2[0].id);
}

#[test]
fn seed_then_query_tags_end_to_end() {
    let mut store = Store::new();
    reset_db(&mut store);
    let (img1, img2) = insert_test_data(&mut store).expect("seeding");
    let labels1: Vec<String> = get_tags_for_image(&img1, &store).into_iter().map(|t| t.label).collect();
    let labels2: Vec<String> = get_tags_for_image(&img2, &store).into_iter().map(|t| t.label).collect();
    assert_eq!(labels1, vec!["cat".to_string()]);
    assert_eq!(labels2, vec!["cute".to_string()]);
}

#[test]
fn seeding_twice_keeps_lookups_apart() {
    let (mut store, a1, a2) = seeded_store();
    let (b1, b2) = insert_test_data(&mut store).expect("second seeding");
    assert_eq!(counts(&store), (4, 4, 4));
    for img in [&a1, &a2, &b1, &b2] {
        assert_eq!(get_tags_for_image(img, &store).len(), 1);
    }
    assert_eq!(get_tags_for_image(&b1, &store)[0].label, "cat");
    assert_eq!(get_tags_for_image(&a2, &store)[0].label, "cute");
}

#[test]
fn deleting_images_first_is_a_foreign_key_violation() {
    let (mut store, _, _) = seeded_store();
    let r = store.execute(&Statement::DeleteAll(Table::Images));
    assert_eq!(r, Err(DbError::ForeignKeyViolation(Column::ImageTagsImageId)));
    assert_eq!(counts(&store), (2, 2, 2));
    let r = store.execute(&Statement::DeleteAll(Table::Tags));
    assert_eq!(r, Err(DbError::ForeignKeyViolation(Column::ImageTagsTagId)));
    let reverse = vec![
        Statement::DeleteAll(Table::Images),
        Statement::DeleteAll(Table::Tags),
        Statement::DeleteAll(Table::ImageTags),
    ];
    assert_eq!(store.run(&reverse), Err(DbError::ForeignKeyViolation(Column::ImageTagsImageId)));
    assert_eq!(counts(&store), (2, 2, 2));
}

#[test]
fn deleting_in_reset_order_succeeds_step_by_step() {
    let (mut store, _, _) = seeded_store();
    assert_eq!(store.execute(&Statement::DeleteAll(Table::ImageTags)), Ok(()));
    assert_eq!(counts(&store), (2, 2, 0));
    assert_eq!(store.execute(&Statement::DeleteAll(Table::Tags)), Ok(()));
    assert_eq!(counts(&store), (2, 0, 0));
    assert_eq!(store.execute(&Statement::DeleteAll(Table::Images)), Ok(()));
    assert_eq!(counts(&store), (0, 0, 0));
}

#[test]
fn deleting_images_without_associations_is_accepted() {
    let mut store = Store::new();
    assert_eq!(store.execute(&Statement::InsertImage(image(1, "x.jpg"))), Ok(()));
    assert_eq!(store.execute(&Statement::DeleteAll(Table::Images)), Ok(()));
    assert_eq!(counts(&store), (0, 0, 0));
}

#[test]
fn inserted_rows_read_back_equal() {
    let mut store = Store::new();
    let (rec, a) = NewImage { url: "img.jpg" }.with_id();
    let img = rec.into_row(a);
    assert_eq!(store.execute(&Statement::InsertImage(img.clone())), Ok(()));
    assert_eq!(store.find_image(img.id), Some(img.clone()));
    let t = tag(9, "cat");
    assert_eq!(store.execute(&Statement::InsertTag(t.clone())), Ok(()));
    assert_eq!(store.find_tag(id(9)), Some(t));
    assert_eq!(store.find_tag(id(10)), None);
    assert_eq!(store.find_image(id(9)), None);
}

#[test]
fn duplicate_keys_are_refused() {
    let mut store = Store::new();
    assert_eq!(store.execute(&Statement::InsertImage(image(1, "a.jpg"))), Ok(()));
    assert_eq!(
        store.execute(&Statement::InsertImage(image(1, "b.jpg"))),
        Err(DbError::DuplicateKey(Table::Images))
    );
    assert_eq!(store.find_image(id(1)), Some(image(1, "a.jpg")));
    assert_eq!(store.execute(&Statement::InsertTag(tag(1, "cat"))), Ok(()));
    assert_eq!(
        store.execute(&Statement::InsertTag(tag(1, "cute"))),
        Err(DbError::DuplicateKey(Table::Tags))
    );
    assert_eq!(store.execute(&Statement::InsertImageTag(link(5, 1, 1))), Ok(()));
    assert_eq!(
        store.execute(&Statement::InsertImageTag(link(5, 1, 1))),
        Err(DbError::DuplicateKey(Table::ImageTags))
    );
    assert_eq!(counts(&store), (1, 1, 1));
}

#[test]
fn associations_need_both_endpoints() {
    let mut store = Store::new();
    assert_eq!(store.execute(&Statement::InsertImage(image(1, "a.jpg"))), Ok(()));
    assert_eq!(store.execute(&Statement::InsertTag(tag(2, "cat"))), Ok(()));
    assert_eq!(
        store.execute(&Statement::InsertImageTag(link(3, 9, 2))),
        Err(DbError::ForeignKeyViolation(Column::ImageTagsImageId))
    );
    assert_eq!(
        store.execute(&Statement::InsertImageTag(link(3, 1, 9))),
        Err(DbError::ForeignKeyViolation(Column::ImageTagsTagId))
    );
    assert_eq!(store.count(Table::ImageTags), 0);
    assert!(!store.linked(id(1), id(2)));
    assert_eq!(store.execute(&Statement::InsertImageTag(link(3, 1, 2))), Ok(()));
    assert!(store.linked(id(1), id(2)));
    assert!(!store.linked(id(2), id(1)));
}

#[test]
fn lookup_keeps_tag_order_and_skips_unlinked_tags() {
    let mut store = Store::new();
    let plan = vec![
        Statement::InsertImage(image(1, "a.jpg")),
        Statement::InsertImage(image(2, "b.jpg")),
        Statement::InsertTag(tag(10, "x")),
        Statement::InsertTag(tag(11, "y")),
        Statement::InsertTag(tag(12, "z")),
        Statement::InsertImageTag(link(20, 1, 12)),
        Statement::InsertImageTag(link(21, 1, 10)),
        Statement::InsertImageTag(link(22, 2, 11)),
        Statement::InsertImageTag(link(23, 1, 10)),
    ];
    assert_eq!(store.run(&plan), Ok(()));
    let labels: Vec<String> = store.tags_for_image(id(1)).into_iter().map(|t| t.label).collect();
    assert_eq!(labels, vec!["x".to_string(), "z".to_string()]);
    assert_eq!(store.tags_for_image(id(2)), vec![tag(11, "y")]);
    assert_eq!(store.tags_for_image(id(3)), Vec::<Tag>::new());
}

#[test]
fn run_stops_at_first_refusal_and_keeps_earlier_effects() {
    let mut store = Store::new();
    let plan = vec![
        Statement::InsertImage(image(1, "a.jpg")),
        Statement::InsertImageTag(link(2, 1, 3)),
        Statement::InsertTag(tag(3, "never")),
    ];
    assert_eq!(store.run(&plan), Err(DbError::ForeignKeyViolation(Column::ImageTagsTagId)));
    assert_eq!(counts(&store), (1, 0, 0));
}

fn fixed_test_data(ids: [u128; 6]) -> TestData {
    TestData {
        img1: image(ids[0], "img.jpg"),
        img2: image(ids[1], "img.png"),
        cat: tag(ids[2], "cat"),
        cute: tag(ids[3], "cute"),
        link1: link(ids[4], ids[0], ids[2]),
        link2: link(ids[5], ids[1], ids[3]),
    }
}

#[test]
fn test_data_statements_insert_endpoints_before_links() {
    let d = test_data();
    assert_eq!(d.img1.url, "img.jpg");
    assert_eq!(d.cute.label, "cute");
    assert_eq!(d.link1.image_id, d.img1.id);
    assert_eq!(d.link2.tag_id, d.cute.id);
    let st = d.statements();
    assert_eq!(st.len(), 6);
    assert!(matches!(&st[0], Statement::InsertImage(i) if i.url == "img.jpg"));
    assert!(matches!(&st[1], Statement::InsertImage(i) if i.url == "img.png"));
    assert!(matches!(&st[2], Statement::InsertTag(t) if t.label == "cat"));
    assert!(matches!(&st[3], Statement::InsertTag(t) if t.label == "cute"));
    assert!(matches!(&st[4], Statement::InsertImageTag(l) if *l == d.link1));
    assert!(matches!(&st[5], Statement::InsertImageTag(l) if *l == d.link2));
}

#[test]
fn test_data_with_clashing_ids_is_a_duplicate_key() {
    let mut store = Store::new();
    let d = fixed_test_data([1, 2, 3, 4, 5, 6]);
    assert_eq!(d.insert_into(&mut store), Ok(()));
    assert_eq!(store.tags_for_image(id(1)), vec![tag(3, "cat")]);
    assert_eq!(store.tags_for_image(id(2)), vec![tag(4, "cute")]);
    let again = fixed_test_data([7, 8, 3, 9, 10, 11]);
    assert_eq!(again.insert_into(&mut store), Err(DbError::DuplicateKey(Table::Tags)));
    assert_eq!(counts(&store), (4, 2, 2));
    let same_images = fixed_test_data([12, 12, 13, 14, 15, 16]);
    assert_eq!(same_images.insert_into(&mut store), Err(DbError::DuplicateKey(Table::Images)));
}
