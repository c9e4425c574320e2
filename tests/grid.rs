use basalt::grid::{required_units, PageGrid};
use basalt::ids::SubImageID;
use basalt::page::Page;
use basalt::ids::AtlasImageID;

#[test]
fn required_units_round_up() {
    assert_eq!(required_units(0, 0), (0, 0));
    assert_eq!(required_units(1, 32), (1, 1));
    assert_eq!(required_units(32, 33), (1, 2));
    assert_eq!(required_units(40, 64), (2, 2));
    assert_eq!(required_units(u32::MAX, 65), (134217728, 3));
}

#[test]
fn grid_side_is_max_dimension_over_unit_stride() {
    assert_eq!(PageGrid::new(340).side_units(), 10);
    assert_eq!(PageGrid::new(16384).side_units(), 481);
    assert_eq!(PageGrid::new(33).side_units(), 0);
}

#[test]
fn find_space_skips_occupied_cells() {
    let mut g = PageGrid::new(136); // 4 units per side
    assert_eq!(g.find_space(2, 2), Some((0, 0)));
    g.place(SubImageID(1), 0, 0, 2, 2);
    assert_eq!(g.get(1, 1), Some(SubImageID(1)));
    assert_eq!(g.get(2, 0), None);
    assert_eq!(g.find_space(2, 2), Some((2, 0)));
    assert_eq!(g.find_space(3, 1), Some((0, 2)));
    assert_eq!(g.find_space(5, 1), None);
    assert!(!g.is_region_free(1, 1, 2, 2));
    assert!(g.is_region_free(2, 2, 2, 2));
    assert!(!g.is_region_free(3, 3, 2, 1));
}

#[test]
fn find_space_reports_a_full_grid() {
    let mut g = PageGrid::new(68);
    g.place(SubImageID(1), 0, 0, 2, 2);
    assert_eq!(g.find_space(1, 1), None);
    assert_eq!(g.find_space(0, 0), Some((0, 0)));
}

#[test]
fn minimum_size_tracks_each_axis() {
    let mut g = PageGrid::new(340);
    assert_eq!(g.minimum_size(), (0, 0));
    g.place(SubImageID(1), 3, 1, 1, 1);
    assert_eq!(g.minimum_size(), (102, 34));
    g.place(SubImageID(2), 0, 6, 2, 1);
    assert_eq!(g.minimum_size(), (102, 204));
}

#[test]
fn page_space_for_counts_in_pixels() {
    let page = Page::new(AtlasImageID(3), 136);
    assert_eq!(page.page_id(), AtlasImageID(3));
    assert_eq!(page.space_for(128, 128), Some((0, 0)));
    assert_eq!(page.space_for(129, 1), None);
    assert_eq!(page.minimum_size(), (0, 0));
    assert!(!page.has_pending());
}
