use dkb::item::Category;
use dkb::storage::Location;

#[test]
fn test_parse_category_location() {
    assert_eq!(
        dkb::storage::Location::Active(Category::Today),
        Location::Active(Category::Today)
    );
}
