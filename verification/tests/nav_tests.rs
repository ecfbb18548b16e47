use alexo_io::nav::{
    active_section, focus_nav_sibling, link_is_active, link_is_tabbable, nav_key_action,
    nav_link_class, nav_link_tab_index, preferred_scroll_behavior, NavKey, NavKeyAction,
    ScrollMotion, Section, SECTION_COUNT,
};

const ALL: [Section; 5] = [
    Section::Skills,
    Section::Experience,
    Section::Projects,
    Section::Education,
    Section::Contact,
];

#[test]
fn sections_in_page_order() {
    assert_eq!(SECTION_COUNT, 5);
    for (i, s) in ALL.iter().enumerate() {
        assert_eq!(Section::at(i), *s);
    }
    let ids: Vec<&str> = ALL.iter().map(|s| s.id()).collect();
    assert_eq!(ids, vec!["skills", "experience", "projects", "education", "contact"]);
    let labels: Vec<&str> = ALL.iter().map(|s| s.label()).collect();
    assert_eq!(labels, vec!["Skills", "Experience", "Projects", "Education", "Contact"]);
}

#[test]
fn bottom_of_page_is_contact() {
    assert_eq!(active_section(true, [false; 5]), Some(Section::Contact));
    assert_eq!(active_section(true, [true, false, false, false, false]), Some(Section::Contact));
}

#[test]
fn last_passed_section_is_active() {
    assert_eq!(active_section(false, [false; 5]), None);
    assert_eq!(active_section(false, [true, false, false, false, false]), Some(Section::Skills));
    assert_eq!(active_section(false, [true, true, true, false, false]), Some(Section::Projects));
    assert_eq!(active_section(false, [true; 5]), Some(Section::Contact));
    assert_eq!(active_section(false, [false, true, false, true, false]), Some(Section::Education));
}

#[test]
fn highlight_and_tab_stop() {
    assert!(link_is_active(Some(Section::Projects), Section::Projects));
    assert!(!link_is_active(Some(Section::Projects), Section::Skills));
    assert!(!link_is_active(None, Section::Skills));
    assert!(link_is_tabbable(None, Section::Skills));
    assert!(!link_is_tabbable(None, Section::Contact));
    assert!(link_is_tabbable(Some(Section::Contact), Section::Contact));
    assert!(!link_is_tabbable(Some(Section::Contact), Section::Skills));
}

#[test]
fn exactly_one_tab_stop_in_every_state() {
    let mut states: Vec<Option<Section>> = ALL.iter().map(|s| Some(*s)).collect();
    states.push(None);
    for active in states {
        let stops = ALL.iter().filter(|s| link_is_tabbable(active, **s)).count();
        assert_eq!(stops, 1);
        let lit = ALL.iter().filter(|s| link_is_active(active, **s)).count();
        assert!(lit <= 1);
    }
}

#[test]
fn link_attributes() {
    assert_eq!(nav_link_class(true), "nav-link active");
    assert_eq!(nav_link_class(false), "nav-link");
    assert_eq!(nav_link_tab_index(true), "0");
    assert_eq!(nav_link_tab_index(false), "-1");
}

#[test]
fn arrows_move_focus_with_wraparound() {
    let focused = vec![false, true, false];
    assert_eq!(focus_nav_sibling(&focused, true), Some(2));
    assert_eq!(focus_nav_sibling(&focused, false), Some(0));
    let last = vec![false, false, true];
    assert_eq!(focus_nav_sibling(&last, true), Some(0));
    let first = vec![true, false, false];
    assert_eq!(focus_nav_sibling(&first, false), Some(2));
}

#[test]
fn unfocused_toolbar_counts_from_the_first_button() {
    let none = vec![false, false, false, false];
    assert_eq!(focus_nav_sibling(&none, true), Some(1));
    assert_eq!(focus_nav_sibling(&none, false), Some(3));
}

#[test]
fn single_and_empty_toolbars() {
    assert_eq!(focus_nav_sibling(&vec![true], true), Some(0));
    assert_eq!(focus_nav_sibling(&vec![true], false), Some(0));
    assert_eq!(focus_nav_sibling(&vec![], true), None);
    assert_eq!(focus_nav_sibling(&vec![], false), None);
}

#[test]
fn forward_then_back_returns() {
    for len in 1usize..7 {
        for i in 0..len {
            for forward in [true, false] {
                let mut focused = vec![false; len];
                focused[i] = true;
                let next = focus_nav_sibling(&focused, forward).unwrap();
                assert!(next < len);
                let mut moved = vec![false; len];
                moved[next] = true;
                assert_eq!(focus_nav_sibling(&moved, !forward), Some(i));
            }
        }
    }
}

#[test]
fn keys_on_the_toolbar() {
    assert_eq!(nav_key_action(NavKey::ArrowRight), NavKeyAction::FocusNext);
    assert_eq!(nav_key_action(NavKey::ArrowLeft), NavKeyAction::FocusPrevious);
    assert_eq!(nav_key_action(NavKey::Escape), NavKeyAction::Blur);
    assert_eq!(nav_key_action(NavKey::Other), NavKeyAction::Ignore);
    assert!(NavKeyAction::FocusNext.prevents_default());
    assert!(NavKeyAction::FocusPrevious.prevents_default());
    assert!(!NavKeyAction::Blur.prevents_default());
    assert!(!NavKeyAction::Ignore.prevents_default());
    assert_eq!(NavKeyAction::FocusNext.focus_direction(), Some(true));
    assert_eq!(NavKeyAction::FocusPrevious.focus_direction(), Some(false));
    assert_eq!(NavKeyAction::Blur.focus_direction(), None);
}

#[test]
fn reduced_motion_scrolls_instantly() {
    assert_eq!(preferred_scroll_behavior(Some(true)), ScrollMotion::Instant);
    assert_eq!(preferred_scroll_behavior(Some(false)), ScrollMotion::Smooth);
    assert_eq!(preferred_scroll_behavior(None), ScrollMotion::Smooth);
}

fn rank(s: Option<Section>) -> i32 {
    match s {
        None => -1,
        Some(x) => ALL.iter().position(|y| *y == x).unwrap() as i32,
    }
}

#[test]
fn lower_line_never_moves_highlight_up() {
    for fewer_bits in 0u32..32 {
        for more_bits in 0u32..32 {
            if fewer_bits & !more_bits != 0 {
                continue;
            }
            let fewer: [bool; 5] = core::array::from_fn(|i| fewer_bits & (1 << i) != 0);
            let more: [bool; 5] = core::array::from_fn(|i| more_bits & (1 << i) != 0);
            assert!(rank(active_section(false, fewer)) <= rank(active_section(false, more)));
        }
    }
}
