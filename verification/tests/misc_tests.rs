use wishlist::authentication::{check_permissions, AuthorizedUserHeader, Role};
use wishlist::books::{Library, QueryRoot};
use wishlist::ids::Uuid;
use wishlist::order_datatypes::{
    CommonOrderField, CommonOrderInput, OrderDirection, WishlistOrderField, WishlistOrderInput,
};
use wishlist::wishlist::Wishlist;

fn uuid(value: u128) -> Uuid {
    Uuid { value }
}

#[test]
fn order_direction_defaults_to_ascending() {
    assert_eq!(OrderDirection::default(), OrderDirection::Asc);
    assert_eq!(OrderDirection::Asc.as_i32(), 1);
    assert_eq!(OrderDirection::Desc.as_i32(), -1);
}

#[test]
fn wishlist_order_field_paths() {
    assert_eq!(WishlistOrderField::Id.as_str(), "_id");
    assert_eq!(WishlistOrderField::UserId.as_str(), "user._id");
    assert_eq!(WishlistOrderField::Name.as_str(), "name");
    assert_eq!(WishlistOrderField::CreatedAt.as_str(), "created_at");
    assert_eq!(WishlistOrderField::LastUpdatedAt.as_str(), "last_updated_at");
    assert_eq!(WishlistOrderField::default(), WishlistOrderField::Id);
}

#[test]
fn order_inputs_default_to_id_ascending() {
    let w = WishlistOrderInput::default();
    assert_eq!(w.direction, Some(OrderDirection::Asc));
    assert_eq!(w.field, Some(WishlistOrderField::Id));
    let c = CommonOrderInput::default();
    assert_eq!(c.direction, Some(OrderDirection::Asc));
    assert_eq!(c.field, Some(CommonOrderField::Id));
    assert_eq!(CommonOrderField::default().as_str(), "_id");
}

#[test]
fn buyer_is_not_permissive() {
    assert!(!Role::Buyer.is_permissive());
    assert!(Role::Admin.is_permissive());
    assert!(Role::Employee.is_permissive());
}

#[test]
fn permissions_allow_self_or_permissive_roles() {
    let buyer = AuthorizedUserHeader { id: uuid(1), roles: vec![Role::Buyer] };
    assert!(check_permissions(&buyer, uuid(1)));
    assert!(!check_permissions(&buyer, uuid(2)));
    let admin = AuthorizedUserHeader { id: uuid(1), roles: vec![Role::Buyer, Role::Admin] };
    assert!(check_permissions(&admin, uuid(2)));
    let nobody = AuthorizedUserHeader { id: uuid(1), roles: vec![] };
    assert!(check_permissions(&nobody, uuid(1)));
    assert!(!check_permissions(&nobody, uuid(2)));
}

#[test]
fn library_serves_books_and_authors() {
    let library = Library::new();
    let books = library.books();
    assert_eq!(books.len(), 2);
    assert_eq!(books[0].name(), "Lord of the Rings");
    assert_eq!(books[1].name(), "Harry Potter and the Prizoner of Azkaban");
    assert_eq!(books[0].id(), 0);
    assert_eq!(books[1].author_id(), 1);
    let authors = library.authors();
    assert_eq!(authors.len(), 2);
    assert_eq!(authors[0].name(), "J. R. R. Tolkien");
    assert_eq!(authors[1].name(), "J. K. Rowling");
    assert_eq!(authors[1].id(), 1);
}

#[test]
fn query_root_resolves_by_id() {
    let library = Library::new();
    let root = QueryRoot;
    assert_eq!(root.book(&library, 0).name(), "Lord of the Rings");
    assert_eq!(root.author(&library, 1).name(), "J. K. Rowling");
    assert_eq!(root.books(&library).len(), 2);
    assert_eq!(root.authors(&library).len(), 2);
}

#[test]
fn wishlist_converts_to_its_id() {
    let w = Wishlist {
        _id: uuid(42),
        user: wishlist::foreign_types::User { _id: uuid(1) },
        name: String::from("w"),
        created_at: 1,
        last_updated_at: 1,
        internal_product_variants: vec![],
    };
    assert_eq!(Uuid::from(w), uuid(42));
}
