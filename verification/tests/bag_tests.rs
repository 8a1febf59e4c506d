use common_game::components::resource::{BasicResourceType, ComplexResourceType, ResourceType};
use galaxy_ui::bag::{format_bag_content, format_labelled_bag, BagContent};

#[test]
fn empty_bag_reads_empty() {
    let bag = BagContent { resources_amounts: Vec::new() };
    assert_eq!(format_bag_content(&bag), "bag: empty");
}

#[test]
fn bag_entries_are_sorted_as_text() {
    let bag = BagContent {
        resources_amounts: vec![
            (ResourceType::Complex(ComplexResourceType::Water), 1),
            (ResourceType::Basic(BasicResourceType::Oxygen), 2),
            (ResourceType::Basic(BasicResourceType::Carbon), 10),
        ],
    };
    assert_eq!(
        format_bag_content(&bag),
        "bag: Basic(Carbon):10, Basic(Oxygen):2, Complex(Water):1"
    );
}

#[test]
fn bag_text_does_not_depend_on_entry_order() {
    let a = BagContent {
        resources_amounts: vec![
            (ResourceType::Basic(BasicResourceType::Hydrogen), 3),
            (ResourceType::Complex(ComplexResourceType::Robot), 4),
        ],
    };
    let b = BagContent {
        resources_amounts: vec![
            (ResourceType::Complex(ComplexResourceType::Robot), 4),
            (ResourceType::Basic(BasicResourceType::Hydrogen), 3),
        ],
    };
    assert_eq!(format_bag_content(&a), format_bag_content(&b));
    assert_eq!(format_bag_content(&a), "bag: Basic(Hydrogen):3, Complex(Robot):4");
}

#[test]
fn resource_types_are_written_as_debug_text() {
    let bag = BagContent {
        resources_amounts: vec![
            (ResourceType::Complex(ComplexResourceType::AIPartner), 1),
            (ResourceType::Basic(BasicResourceType::Silicon), 0),
        ],
    };
    assert_eq!(format_bag_content(&bag), "bag: Basic(Silicon):0, Complex(AIPartner):1");
}

#[test]
fn labelled_bag_sorts_whole_entries() {
    let entries = vec![("b".to_string(), 1usize), ("a".to_string(), 20usize), ("a".to_string(), 3usize)];
    assert_eq!(format_labelled_bag(&entries), "bag: a:20, a:3, b:1");
    assert_eq!(format_labelled_bag(&Vec::new()), "bag: empty");
}
