//! The section navigation bar: which section the reader is in (scroll spy),
//! which link takes the tab stop, how the arrow keys move focus along the
//! toolbar, and how far-reaching scrolls move.

use vstd::prelude::*;

verus! {

/// The sections that the navigation bar links to, in page order.
#[derive(Clone, Copy, Debug, PartialEq, Eq, Structural)]
pub enum Section {
    Skills,
    Experience,
    Projects,
    Education,
    Contact,
}

/// The number of sections in the navigation bar.
pub const SECTION_COUNT: usize = 5;

/// The section at position `i` of the page (0 to 4).
pub open spec fn section_at(i: int) -> Section {
    if i == 0 {
        Section::Skills
    } else if i == 1 {
        Section::Experience
    } else if i == 2 {
        Section::Projects
    } else if i == 3 {
        Section::Education
    } else {
        Section::Contact
    }
}

/// The position of a section on the page.
pub open spec fn section_index(s: Section) -> int {
    match s {
        Section::Skills => 0,
        Section::Experience => 1,
        Section::Projects => 2,
        Section::Education => 3,
        Section::Contact => 4,
    }
}

/// The element id of a section.
pub open spec fn section_id_text(s: Section) -> Seq<char> {
    match s {
        Section::Skills => "skills"@,
        Section::Experience => "experience"@,
        Section::Projects => "projects"@,
        Section::Education => "education"@,
        Section::Contact => "contact"@,
    }
}

/// The label of a section's link.
pub open spec fn section_label_text(s: Section) -> Seq<char> {
    match s {
        Section::Skills => "Skills"@,
        Section::Experience => "Experience"@,
        Section::Projects => "Projects"@,
        Section::Education => "Education"@,
        Section::Contact => "Contact"@,
    }
}

impl Section {
    /// The section at position `i` of the page.
    pub fn at(i: usize) -> (r: Section)
        requires
            i < SECTION_COUNT,
        ensures
            r == section_at(i as int),
    {
        if i == 0 {
            Section::Skills
        } else if i == 1 {
            Section::Experience
        } else if i == 2 {
            Section::Projects
        } else if i == 3 {
            Section::Education
        } else {
            Section::Contact
        }
    }

    /// The id of the section's element on the page.
    pub fn id(&self) -> (r: &'static str)
        ensures
            r@ == section_id_text(*self),
    {
        match self {
            Section::Skills => "skills",
            Section::Experience => "experience",
            Section::Projects => "projects",
            Section::Education => "education",
            Section::Contact => "contact",
        }
    }

    /// The label of the section's link in the navigation bar.
    pub fn label(&self) -> (r: &'static str)
        ensures
            r@ == section_label_text(*self),
    {
        match self {
            Section::Skills => "Skills",
            Section::Experience => "Experience",
            Section::Projects => "Projects",
            Section::Education => "Education",
            Section::Contact => "Contact",
        }
    }
}

/// The sections sit on the page in the order Skills, Experience, Projects,
/// Education, Contact, with element ids `skills`, `experience`, `projects`,
/// `education` and `contact`.
pub proof fn lemma_section_order_and_ids()
    ensures
        forall|i: int| 0 <= i < 5 ==> section_index(#[trigger] section_at(i)) == i,
        section_at(0) == Section::Skills,
        section_at(4) == Section::Contact,
        section_id_text(Section::Skills) == seq!['s', 'k', 'i', 'l', 'l', 's'],
        section_id_text(Section::Experience) == seq![
            'e',
            'x',
            'p',
            'e',
            'r',
            'i',
            'e',
            'n',
            'c',
            'e',
        ],
        section_id_text(Section::Projects) == seq!['p', 'r', 'o', 'j', 'e', 'c', 't', 's'],
        section_id_text(Section::Education) == seq!['e', 'd', 'u', 'c', 'a', 't', 'i', 'o', 'n'],
        section_id_text(Section::Contact) == seq!['c', 'o', 'n', 't', 'a', 'c', 't'],
{
    reveal_strlit("skills");
    reveal_strlit("experience");
    reveal_strlit("projects");
    reveal_strlit("education");
    reveal_strlit("contact");
    assert("skills"@ =~= seq!['s', 'k', 'i', 'l', 'l', 's']);
    assert("experience"@ =~= seq!['e', 'x', 'p', 'e', 'r', 'i', 'e', 'n', 'c', 'e']);
    assert("projects"@ =~= seq!['p', 'r', 'o', 'j', 'e', 'c', 't', 's']);
    assert("education"@ =~= seq!['e', 'd', 'u', 'c', 'a', 't', 'i', 'o', 'n']);
    assert("contact"@ =~= seq!['c', 'o', 'n', 't', 'a', 'c', 't']);
}

/// The last of the first `n` positions that is marked, if any.
pub open spec fn last_marked(marked: Seq<bool>, n: int) -> Option<int>
    decreases n,
{
    if n <= 0 {
        None
    } else if marked[n - 1] {
        Some(n - 1)
    } else {
        last_marked(marked, n - 1)
    }
}

/// The section the reader is in: `Contact` at the bottom of the page,
/// otherwise the last section whose heading has passed the activation line,
/// otherwise none.
pub open spec fn spied_section(at_bottom: bool, passed: Seq<bool>) -> Option<Section> {
    if at_bottom {
        Some(Section::Contact)
    } else {
        match last_marked(passed, 5) {
            Some(i) => Some(section_at(i)),
            None => None,
        }
    }
}

/// The scroll-spy decision. `at_bottom` tells that the page is scrolled to
/// within reach of its end; `passed[i]` that the `i`-th section is on the page
/// and its top is above the activation line. The result is the section to
/// highlight, `None` for none.
pub fn active_section(at_bottom: bool, passed: [bool; 5]) -> (r: Option<Section>)
    ensures
        r == spied_section(at_bottom, passed@),
{
    if at_bottom {
        return Some(Section::Contact);
    }
    let mut active: Option<Section> = None;
    let mut i: usize = 0;
    while i < SECTION_COUNT
        invariant
            i <= 5,
            active == match last_marked(passed@, i as int) {
                Some(k) => Some(section_at(k)),
                None => None,
            },
        decreases 5 - i,
    {
        if passed[i] {
            active = Some(Section::at(i));
        }
        i = i + 1;
    }
    active
}

/// The link to a section is highlighted when that section is the active one.
pub open spec fn is_highlighted(active: Option<Section>, s: Section) -> bool {
    active == Some(s)
}

/// The link to a section is the toolbar's tab stop: the active section's
/// link, or the first link while no section is active.
pub open spec fn is_tab_stop(active: Option<Section>, s: Section) -> bool {
    active == Some(s) || (s == Section::Skills && active is None)
}

/// Whether the link to `s` is highlighted while `active` is the active
/// section.
pub fn link_is_active(active: Option<Section>, s: Section) -> (r: bool)
    ensures
        r == is_highlighted(active, s),
{
    match active {
        Some(a) => a == s,
        None => false,
    }
}

/// Whether the link to `s` takes the toolbar's single tab stop while
/// `active` is the active section.
pub fn link_is_tabbable(active: Option<Section>, s: Section) -> (r: bool)
    ensures
        r == is_tab_stop(active, s),
{
    match active {
        Some(a) => a == s,
        None => s == Section::Skills,
    }
}

/// The CSS class of a navigation link, marking the highlighted one.
pub fn nav_link_class(is_active: bool) -> (r: &'static str)
    ensures
        r@ == if is_active {
            "nav-link active"@
        } else {
            "nav-link"@
        },
{
    if is_active {
        "nav-link active"
    } else {
        "nav-link"
    }
}

/// The `tabindex` of a navigation link: `0` for the tab stop, `-1` for the
/// others, which the arrow keys reach.
pub fn nav_link_tab_index(tabbable: bool) -> (r: &'static str)
    ensures
        r@ == if tabbable {
            "0"@
        } else {
            "-1"@
        },
{
    if tabbable {
        "0"
    } else {
        "-1"
    }
}

/// The toolbar keeps exactly one tab stop: whatever the active section, one
/// and only one link takes it.
pub proof fn lemma_single_tab_stop(active: Option<Section>)
    ensures
        exists|s: Section| #[trigger] is_tab_stop(active, s),
        forall|s1: Section, s2: Section|
            #[trigger] is_tab_stop(active, s1) && #[trigger] is_tab_stop(active, s2) ==> s1 == s2,
{
    match active {
        Some(a) => assert(is_tab_stop(active, a)),
        None => assert(is_tab_stop(active, Section::Skills)),
    }
}

/// At most one link is highlighted, and a highlighted link is the tab stop.
pub proof fn lemma_highlight_is_tab_stop(active: Option<Section>, s: Section)
    ensures
        is_highlighted(active, s) ==> is_tab_stop(active, s),
        forall|s1: Section, s2: Section|
            #[trigger] is_highlighted(active, s1) && #[trigger] is_highlighted(active, s2) ==> s1
                == s2,
{
}

/// At the bottom of the page the contact section is active, whatever else.
pub proof fn lemma_bottom_is_contact(passed: Seq<bool>)
    ensures
        spied_section(true, passed) == Some(Section::Contact),
{
}

/// The highlighted section has passed the line and no later one has; with
/// none highlighted, none has passed.
pub proof fn lemma_spied_is_last_passed(passed: Seq<bool>)
    requires
        passed.len() == 5,
    ensures
        match spied_section(false, passed) {
            Some(s) => passed[section_index(s)] && forall|j: int|
                section_index(s) < j < 5 ==> !passed[j],
            None => forall|j: int| 0 <= j < 5 ==> !passed[j],
        },
{
    reveal_with_fuel(last_marked, 6);
}

/// The next button along the toolbar from `current`, wrapping around:
/// forward to the right, backward to the left.
pub open spec fn sibling(current: int, len: int, forward: bool) -> int {
    if forward {
        if current + 1 < len {
            current + 1
        } else {
            0
        }
    } else {
        if current > 0 {
            current - 1
        } else {
            len - 1
        }
    }
}

/// The position of the focused button: the first one marked as focused, or
/// the first button when none is.
pub open spec fn focused_position(focused: Seq<bool>) -> int {
    match first_marked(focused, 0) {
        Some(i) => i,
        None => 0,
    }
}

/// The first position from `i` on that is marked, if any.
pub open spec fn first_marked(marked: Seq<bool>, i: int) -> Option<int>
    decreases marked.len() - i,
{
    if i < 0 || i >= marked.len() {
        None
    } else if marked[i] {
        Some(i)
    } else {
        first_marked(marked, i + 1)
    }
}

/// Where an arrow key moves focus along the toolbar. `focused[i]` tells
/// whether the `i`-th button holds the focus. With no buttons there is
/// nothing to focus (`None`); otherwise the result is the neighbour of the
/// focused button (of the first button when none is focused) in the arrow's
/// direction, wrapping around at the ends.
pub fn focus_nav_sibling(focused: &Vec<bool>, forward: bool) -> (r: Option<usize>)
    ensures
        focused@.len() == 0 ==> r is None,
        focused@.len() > 0 ==> r == Some(
            sibling(focused_position(focused@), focused@.len() as int, forward) as usize,
        ),
{
    let len = focused.len();
    if len == 0 {
        return None;
    }
    let mut current: usize = 0;
    let mut i: usize = 0;
    while i < len
        invariant_except_break
            current == 0,
            first_marked(focused@, 0) == first_marked(focused@, i as int),
        invariant
            0 < len,
            i <= len,
            len == focused@.len(),
        ensures
            current < len,
            current as int == focused_position(focused@),
        decreases len - i,
    {
        if focused[i] {
            current = i;
            break;
        }
        i = i + 1;
    }
    let next = if forward {
        if current + 1 < len {
            current + 1
        } else {
            0
        }
    } else {
        if current > 0 {
            current - 1
        } else {
            len - 1
        }
    };
    Some(next)
}

/// The page rank of a scroll-spy result, no section counting as earliest.
pub open spec fn spied_rank(active: Option<Section>) -> int {
    match active {
        Some(s) => section_index(s),
        None => -1,
    }
}

proof fn lemma_last_marked_grows(a: Seq<bool>, b: Seq<bool>, n: int)
    requires
        0 <= n <= a.len(),
        a.len() == b.len(),
        forall|j: int| 0 <= j < n ==> a[j] ==> b[j],
    ensures
        last_marked(a, n) matches Some(i) ==> (last_marked(b, n) matches Some(k) && i <= k),
        last_marked(a, n) matches Some(i) ==> 0 <= i < n,
        last_marked(b, n) matches Some(k) ==> 0 <= k < n,
    decreases n,
{
    if n > 0 {
        lemma_last_marked_grows(a, b, n - 1);
    }
}

/// A line that more sections have passed never moves the highlight back up
/// the page: when every section that has passed one activation line has
/// also passed another (as with the lower line used while scrolling up), the
/// section highlighted for the second is the same or later.
pub proof fn lemma_spied_monotone(fewer: Seq<bool>, more: Seq<bool>)
    requires
        fewer.len() == 5,
        more.len() == 5,
        forall|j: int| 0 <= j < 5 ==> fewer[j] ==> more[j],
    ensures
        spied_rank(spied_section(false, fewer)) <= spied_rank(spied_section(false, more)),
{
    lemma_last_marked_grows(fewer, more, 5);
}

/// The right arrow moves to the next button and the left arrow to the
/// previous one, wrapping around: from button `c` of `len`, forward is
/// `(c + 1) % len` and backward is `(c + len - 1) % len`.
pub proof fn lemma_sibling_wraps(c: int, len: int)
    requires
        0 <= c < len,
    ensures
        sibling(c, len, true) == (c + 1) % len,
        sibling(c, len, false) == (c + len - 1) % len,
{
    if c + 1 < len {
        vstd::arithmetic::div_mod::lemma_small_mod((c + 1) as nat, len as nat);
    } else {
        vstd::arithmetic::div_mod::lemma_mod_self_0(len);
    }
    if c > 0 {
        vstd::arithmetic::div_mod::lemma_mod_add_multiples_vanish(c - 1, len);
        vstd::arithmetic::div_mod::lemma_small_mod((c - 1) as nat, len as nat);
    } else {
        vstd::arithmetic::div_mod::lemma_small_mod((len - 1) as nat, len as nat);
    }
}

/// The focused position is the first button that holds focus, or the first
/// button when none does.
pub proof fn lemma_focused_position_is_first(focused: Seq<bool>, i: int)
    requires
        0 <= i < focused.len(),
    ensures
        (focused[i] && forall|j: int| 0 <= j < i ==> !focused[j]) ==> focused_position(focused)
            == i,
        (forall|j: int| 0 <= j < focused.len() ==> !focused[j]) ==> focused_position(focused) == 0,
{
    if focused[i] && forall|j: int| 0 <= j < i ==> !focused[j] {
        lemma_first_marked_skips(focused, 0, i);
    }
    if forall|j: int| 0 <= j < focused.len() ==> !focused[j] {
        lemma_first_marked_none(focused, 0);
    }
}

proof fn lemma_first_marked_none(marked: Seq<bool>, k: int)
    requires
        0 <= k,
        forall|j: int| 0 <= j < marked.len() ==> !marked[j],
    ensures
        first_marked(marked, k) is None,
    decreases marked.len() - k,
{
    if k < marked.len() {
        lemma_first_marked_none(marked, k + 1);
    }
}

/// The sibling of a button is a button, and moving one way then the other
/// comes back to where focus started.
pub proof fn lemma_sibling_round_trip(current: int, len: int, forward: bool)
    requires
        0 <= current < len,
    ensures
        0 <= sibling(current, len, forward) < len,
        sibling(sibling(current, len, forward), len, !forward) == current,
{
}

/// With exactly one button focused, the focused position is that button, so
/// that an arrow key and the opposite one bring focus back.
pub proof fn lemma_focused_position_unique(focused: Seq<bool>, i: int)
    requires
        0 <= i < focused.len(),
        focused[i],
        forall|j: int| 0 <= j < focused.len() && j != i ==> !focused[j],
    ensures
        focused_position(focused) == i,
{
    lemma_first_marked_skips(focused, 0, i);
}

proof fn lemma_first_marked_skips(marked: Seq<bool>, k: int, i: int)
    requires
        0 <= k <= i < marked.len(),
        marked[i],
        forall|j: int| k <= j < i ==> !marked[j],
    ensures
        first_marked(marked, k) == Some(i),
    decreases i - k,
{
    if k < i {
        lemma_first_marked_skips(marked, k + 1, i);
    }
}

/// An arrow key and then the opposite one bring focus back to the button it
/// started on: if button `i` alone is focused, and then the button that the
/// first key chose alone is, the second key chooses `i`.
pub proof fn lemma_arrow_then_opposite(focused: Seq<bool>, moved: Seq<bool>, i: int, forward: bool)
    requires
        0 <= i < focused.len(),
        focused[i],
        forall|j: int| 0 <= j < focused.len() && j != i ==> !focused[j],
        moved.len() == focused.len(),
        ({
            let next = sibling(focused_position(focused), focused.len() as int, forward);
            &&& moved[next]
            &&& forall|j: int| 0 <= j < moved.len() && j != next ==> !moved[j]
        }),
    ensures
        sibling(focused_position(moved), moved.len() as int, !forward) == i,
{
    lemma_focused_position_unique(focused, i);
    let next = sibling(i, focused.len() as int, forward);
    lemma_sibling_round_trip(i, focused.len() as int, forward);
    lemma_focused_position_unique(moved, next);
}

/// A key pressed on the navigation toolbar, as far as the toolbar cares.
#[derive(Clone, Copy, Debug, PartialEq, Eq, Structural)]
pub enum NavKey {
    ArrowRight,
    ArrowLeft,
    Escape,
    Other,
}

/// What the toolbar does on a key.
#[derive(Clone, Copy, Debug, PartialEq, Eq, Structural)]
pub enum NavKeyAction {
    /// Move focus to the next button, keeping the key from scrolling.
    FocusNext,
    /// Move focus to the previous button, keeping the key from scrolling.
    FocusPrevious,
    /// Leave the toolbar: the focused element gives up focus.
    Blur,
    /// Let the key through.
    Ignore,
}

/// The toolbar keyboard pattern: the right and left arrows move between buttons, Escape
/// leaves the toolbar, other keys pass.
pub fn nav_key_action(key: NavKey) -> (r: NavKeyAction)
    ensures
        r == match key {
            NavKey::ArrowRight => NavKeyAction::FocusNext,
            NavKey::ArrowLeft => NavKeyAction::FocusPrevious,
            NavKey::Escape => NavKeyAction::Blur,
            NavKey::Other => NavKeyAction::Ignore,
        },
{
    match key {
        NavKey::ArrowRight => NavKeyAction::FocusNext,
        NavKey::ArrowLeft => NavKeyAction::FocusPrevious,
        NavKey::Escape => NavKeyAction::Blur,
        NavKey::Other => NavKeyAction::Ignore,
    }
}

impl NavKeyAction {
    /// Whether the key's default action (scrolling) is suppressed.
    pub fn prevents_default(&self) -> (r: bool)
        ensures
            r == (*self == NavKeyAction::FocusNext || *self == NavKeyAction::FocusPrevious),
    {
        match self {
            NavKeyAction::FocusNext => true,
            NavKeyAction::FocusPrevious => true,
            _ => false,
        }
    }

    /// The direction in which the action moves focus, `Some(true)` forward.
    pub fn focus_direction(&self) -> (r: Option<bool>)
        ensures
            r == match *self {
                NavKeyAction::FocusNext => Some(true),
                NavKeyAction::FocusPrevious => Some(false),
                _ => None::<bool>,
            },
    {
        match self {
            NavKeyAction::FocusNext => Some(true),
            NavKeyAction::FocusPrevious => Some(false),
            _ => None,
        }
    }
}

/// How a navigation scroll moves.
#[derive(Clone, Copy, Debug, PartialEq, Eq, Structural)]
pub enum ScrollMotion {
    Smooth,
    Instant,
}

/// Smooth scrolling unless the reader asks for reduced motion:
/// `reduced_motion` is the `prefers-reduced-motion: reduce` query's answer,
/// `None` where it could not be asked.
pub fn preferred_scroll_behavior(reduced_motion: Option<bool>) -> (r: ScrollMotion)
    ensures
        r == if reduced_motion == Some(true) {
            ScrollMotion::Instant
        } else {
            ScrollMotion::Smooth
        },
{
    match reduced_motion {
        Some(true) => ScrollMotion::Instant,
        _ => ScrollMotion::Smooth,
    }
}

} // verus!
