//! Moving between chapters: the chapter selected in the sidebar, the one
//! remembered as read last, and the turning of pages by scrolling past the
//! end or the start of a chapter.
//!
//! The reader window reports what happens (a chapter button clicked, the
//! content scrolled) and performs what the navigator answers; the
//! navigator holds the decisions.
use vstd::prelude::*;
use crate::chapters::{
    all_distinct, lemma_restart_opens_saved_chapter, option_view, start_chapter, start_choice,
    strings_view,
};

verus! {

/// The least time between two page turns, in nanoseconds: a scroll that
/// comes sooner after the last turn is swallowed.
pub const DEBOUNCE_NS: u64 = 300_000_000;

/// The vertical direction of a scroll event.
#[derive(Debug, Clone, Copy, PartialEq, Eq)]
pub enum ScrollDirection {
    /// Towards the end of the text.
    Down,
    /// Towards the start of the text.
    Up,
    /// No vertical movement.
    Still,
}

/// What to do with a scroll event.
#[derive(Debug, Clone, Copy, PartialEq, Eq)]
pub enum ScrollAction {
    /// Swallow the event: a page was turned too short a time ago.
    Ignore,
    /// Let the content scroll as usual.
    Pass,
    /// Swallow the event and open the chapter at this position.
    Open(usize),
}

/// The state of the navigation.
pub struct NavState {
    /// The identifiers of the chapters, in order.
    pub chapter_ids: Seq<Seq<char>>,
    /// The position of the chapter highlighted in the sidebar, if any.
    pub selected: Option<nat>,
    /// The identifier of the chapter read last, saved when the window closes.
    pub current_chapter: Option<Seq<char>>,
    /// Whether the next chapter opened is shown from its end.
    pub scroll_to_bottom: bool,
    /// When the last page was turned, in nanoseconds on a monotonic clock.
    pub last_change_ns: nat,
}

/// The selected chapter, if any, is one of the chapters, whose number fits
/// in a `usize`.
pub open spec fn nav_wf(s: NavState) -> bool {
    &&& s.chapter_ids.len() <= usize::MAX
    &&& s.selected matches Some(i) ==> i < s.chapter_ids.len()
}

/// The time from `last` to `now`, or zero if `now` comes first.
pub open spec fn elapsed(now: nat, last: nat) -> nat {
    if now >= last {
        (now - last) as nat
    } else {
        0
    }
}

/// Opening the chapter at `index`: it becomes the selected chapter and the
/// one read last, and whether to show it from its end (the second
/// component) is taken from the state, which forgets it.
pub open spec fn select_step(s: NavState, index: nat) -> (NavState, bool) {
    (
        NavState {
            selected: Some(index),
            current_chapter: Some(s.chapter_ids[index as int]),
            scroll_to_bottom: false,
            ..s
        },
        s.scroll_to_bottom,
    )
}

/// A scroll event at time `now`, in `direction`, while the content is
/// scrolled to its start (`at_top`) or to its end (`at_bottom`).
///
/// Within `DEBOUNCE_NS` of the last page turn the event is swallowed.
/// Otherwise, scrolling down at the end of a chapter that has a next one
/// opens the next one from its start; scrolling up at the start of a
/// chapter that has a previous one opens the previous one from its end;
/// both count as a page turn. Anything else scrolls as usual.
pub open spec fn scroll_step(
    s: NavState,
    now: nat,
    direction: ScrollDirection,
    at_top: bool,
    at_bottom: bool,
) -> (NavState, ScrollAction) {
    if elapsed(now, s.last_change_ns) < DEBOUNCE_NS {
        (s, ScrollAction::Ignore)
    } else {
        match s.selected {
            None => (s, ScrollAction::Pass),
            Some(i) => if direction == ScrollDirection::Down && at_bottom {
                if i + 1 < s.chapter_ids.len() {
                    (
                        NavState { scroll_to_bottom: false, last_change_ns: now, ..s },
                        ScrollAction::Open((i + 1) as usize),
                    )
                } else {
                    (s, ScrollAction::Pass)
                }
            } else if direction == ScrollDirection::Up && at_top {
                if i > 0 {
                    (
                        NavState { scroll_to_bottom: true, last_change_ns: now, ..s },
                        ScrollAction::Open((i - 1) as usize),
                    )
                } else {
                    (s, ScrollAction::Pass)
                }
            } else {
                (s, ScrollAction::Pass)
            },
        }
    }
}

/// The navigation between the chapters of the reader.
pub struct Navigator {
    chapter_ids: Vec<String>,
    selected: Option<usize>,
    current_chapter: Option<String>,
    scroll_to_bottom: bool,
    last_change_ns: u64,
}

impl View for Navigator {
    type V = NavState;

    closed spec fn view(&self) -> NavState {
        NavState {
            chapter_ids: strings_view(self.chapter_ids@),
            selected: match self.selected {
                Some(i) => Some(i as nat),
                None => None,
            },
            current_chapter: option_view(self.current_chapter),
            scroll_to_bottom: self.scroll_to_bottom,
            last_change_ns: self.last_change_ns as nat,
        }
    }
}

impl Navigator {
    /// A navigator over the chapters `chapter_ids`, with `last_chapter` the
    /// identifier saved as read last, created at time `now_ns`: no chapter
    /// is selected yet, and the creation counts as a page turn.
    pub fn new(chapter_ids: Vec<String>, last_chapter: Option<String>, now_ns: u64) -> (n: Self)
        ensures
            n@ == (NavState {
                chapter_ids: strings_view(chapter_ids@),
                selected: None,
                current_chapter: option_view(last_chapter),
                scroll_to_bottom: false,
                last_change_ns: now_ns as nat,
            }),
            nav_wf(n@),
    {
        assert(strings_view(chapter_ids@).len() == chapter_ids.len());
        Navigator {
            chapter_ids,
            selected: None,
            current_chapter: last_chapter,
            scroll_to_bottom: false,
            last_change_ns: now_ns,
        }
    }

    /// The number of chapters.
    pub fn chapter_count(&self) -> (n: usize)
        ensures
            n == self@.chapter_ids.len(),
    {
        self.chapter_ids.len()
    }

    /// The position of the chapter highlighted in the sidebar, if any.
    pub fn selected(&self) -> (r: Option<usize>)
        ensures
            r is Some <==> self@.selected is Some,
            r matches Some(i) ==> self@.selected == Some(i as nat),
    {
        self.selected
    }

    /// Whether the chapter at `index` is the highlighted one.
    pub fn is_selected(&self, index: usize) -> (r: bool)
        ensures
            r == (self@.selected == Some(index as nat)),
    {
        match self.selected {
            Some(i) => i == index,
            None => false,
        }
    }

    /// The identifier of the chapter read last, to be saved.
    pub fn current_chapter(&self) -> (r: Option<String>)
        ensures
            option_view(r) == self@.current_chapter,
    {
        match &self.current_chapter {
            Some(id) => Some(id.clone()),
            None => None,
        }
    }

    /// The position of the chapter to open at start-up: the one read last,
    /// or else the first one.
    pub fn start_index(&self) -> (r: Option<usize>)
        ensures
            r is Some <==> start_choice(self@.chapter_ids, self@.current_chapter) is Some,
            r matches Some(i) ==> start_choice(self@.chapter_ids, self@.current_chapter) == Some(
                i as int,
            ),
    {
        start_chapter(&self.chapter_ids, &self.current_chapter)
    }

    /// Opens the chapter at `index`; returns whether it is to be shown from
    /// its end.
    pub fn select(&mut self, index: usize) -> (go_bottom: bool)
        requires
            nav_wf(old(self)@),
            index < old(self)@.chapter_ids.len(),
        ensures
            (final(self)@, go_bottom) == select_step(old(self)@, index as nat),
            nav_wf(final(self)@),
    {
        let go_bottom = self.scroll_to_bottom;
        let id = self.chapter_ids[index].clone();
        self.current_chapter = Some(id);
        self.selected = Some(index);
        self.scroll_to_bottom = false;
        go_bottom
    }

    /// Decides what a scroll event does, at time `now_ns`, in `direction`,
    /// while the content is at its start (`at_top`) or at its end
    /// (`at_bottom`).
    pub fn on_scroll(
        &mut self,
        now_ns: u64,
        direction: ScrollDirection,
        at_top: bool,
        at_bottom: bool,
    ) -> (action: ScrollAction)
        requires
            nav_wf(old(self)@),
        ensures
            (final(self)@, action) == scroll_step(
                old(self)@,
                now_ns as nat,
                direction,
                at_top,
                at_bottom,
            ),
            nav_wf(final(self)@),
    {
        let elapsed = if now_ns >= self.last_change_ns {
            now_ns - self.last_change_ns
        } else {
            0
        };
        if elapsed < DEBOUNCE_NS {
            return ScrollAction::Ignore;
        }
        match self.selected {
            None => ScrollAction::Pass,
            Some(i) => {
                assert(self@.selected == Some(i as nat));
                assert(i < self.chapter_ids.len());
                let down = match direction {
                    ScrollDirection::Down => true,
                    _ => false,
                };
                let up = match direction {
                    ScrollDirection::Up => true,
                    _ => false,
                };
                if down && at_bottom {
                    if i + 1 < self.chapter_ids.len() {
                        self.last_change_ns = now_ns;
                        self.scroll_to_bottom = false;
                        ScrollAction::Open(i + 1)
                    } else {
                        ScrollAction::Pass
                    }
                } else if up && at_top {
                    if i > 0 {
                        self.last_change_ns = now_ns;
                        self.scroll_to_bottom = true;
                        ScrollAction::Open(i - 1)
                    } else {
                        ScrollAction::Pass
                    }
                } else {
                    ScrollAction::Pass
                }
            },
        }
    }
}

/// A scroll that comes within `DEBOUNCE_NS` of the last page turn is
/// swallowed and changes nothing.
pub proof fn lemma_scroll_debounced(
    s: NavState,
    now: nat,
    direction: ScrollDirection,
    at_top: bool,
    at_bottom: bool,
)
    requires
        elapsed(now, s.last_change_ns) < DEBOUNCE_NS,
    ensures
        scroll_step(s, now, direction, at_top, at_bottom) == (s, ScrollAction::Ignore),
{
}

/// Scrolling only ever opens the chapter right after or right before the
/// selected one, never leaves the chapters, keeps the selection and the
/// chapter read last as they are, and keeps the state well formed.
pub proof fn lemma_scroll_stays_in_book(
    s: NavState,
    now: nat,
    direction: ScrollDirection,
    at_top: bool,
    at_bottom: bool,
)
    requires
        nav_wf(s),
    ensures
        ({
            let (t, action) = scroll_step(s, now, direction, at_top, at_bottom);
            &&& nav_wf(t)
            &&& t.chapter_ids == s.chapter_ids
            &&& t.selected == s.selected
            &&& t.current_chapter == s.current_chapter
            &&& action matches ScrollAction::Open(j) ==> {
                &&& j < s.chapter_ids.len()
                &&& s.selected matches Some(i)
                &&& (j == i + 1 || j + 1 == i)
            }
        }),
{
}

/// Opening a chapter keeps the state well formed, selects that chapter and
/// remembers it as the one read last.
pub proof fn lemma_select_keeps_wf(s: NavState, index: nat)
    requires
        nav_wf(s),
        index < s.chapter_ids.len(),
    ensures
        nav_wf(select_step(s, index).0),
        select_step(s, index).0.selected == Some(index),
        select_step(s, index).0.current_chapter == Some(s.chapter_ids[index as int]),
        !select_step(s, index).0.scroll_to_bottom,
{
}

/// Turning a page forward and then back returns to the same chapter: from
/// chapter `k`, scrolling down at its end opens chapter `k + 1` from its
/// start, and scrolling up at the start of that one (once the debounce time
/// has passed) opens chapter `k` again, from its end.
pub proof fn lemma_page_forward_then_back(s: NavState, k: nat, t1: nat, t2: nat, top1: bool, bottom2: bool)
    requires
        nav_wf(s),
        s.selected == Some(k),
        k + 1 < s.chapter_ids.len(),
        elapsed(t1, s.last_change_ns) >= DEBOUNCE_NS,
        t2 >= t1 + DEBOUNCE_NS,
    ensures
        ({
            let (s1, a1) = scroll_step(s, t1, ScrollDirection::Down, top1, true);
            let (s2, g2) = select_step(s1, (k + 1) as nat);
            let (s3, a3) = scroll_step(s2, t2, ScrollDirection::Up, true, bottom2);
            let (s4, g4) = select_step(s3, k);
            &&& a1 == ScrollAction::Open((k + 1) as usize)
            &&& !g2
            &&& a3 == ScrollAction::Open(k as usize)
            &&& g4
            &&& s4.selected == Some(k)
            &&& s4.current_chapter == Some(s.chapter_ids[k as int])
            &&& nav_wf(s4)
        }),
{
}

/// Where the chapter identifiers are all different, the chapter opened last
/// is the one opened again at the next start, once it has been saved.
pub proof fn lemma_selected_chapter_reopens(s: NavState, index: nat)
    requires
        nav_wf(s),
        index < s.chapter_ids.len(),
        all_distinct(s.chapter_ids),
    ensures
        ({
            let t = select_step(s, index).0;
            start_choice(t.chapter_ids, t.current_chapter) == Some(index as int)
        }),
{
    lemma_restart_opens_saved_chapter(s.chapter_ids, index as int);
}

/// A page turns only at the edge that the scroll moves past, once the
/// debounce time has passed: scrolling down opens the next chapter only at
/// the end of the content, scrolling up opens the previous one only at its
/// start, and the turn is recorded as the last change. A scroll that turns
/// no page changes nothing.
pub proof fn lemma_page_turns_only_at_edges(
    s: NavState,
    now: nat,
    direction: ScrollDirection,
    at_top: bool,
    at_bottom: bool,
)
    requires
        nav_wf(s),
    ensures
        ({
            let (t, a) = scroll_step(s, now, direction, at_top, at_bottom);
            &&& a matches ScrollAction::Open(j) ==> {
                &&& elapsed(now, s.last_change_ns) >= DEBOUNCE_NS
                &&& s.selected matches Some(i)
                &&& ((direction == ScrollDirection::Down && at_bottom && j == i + 1) || (direction
                    == ScrollDirection::Up && at_top && j + 1 == i))
                &&& t.last_change_ns == now
                &&& t.selected == s.selected
                &&& t.current_chapter == s.current_chapter
            }
            &&& !(a is Open) ==> t == s
        }),
{
}

/// Scrolling inside a chapter scrolls its content: once the debounce time
/// has passed, a scroll down that is not at the end, a scroll up that is
/// not at the start, and a scroll with no vertical movement all pass,
/// whatever the other edge.
pub proof fn lemma_scroll_within_chapter_passes(
    s: NavState,
    now: nat,
    direction: ScrollDirection,
    at_top: bool,
    at_bottom: bool,
)
    requires
        elapsed(now, s.last_change_ns) >= DEBOUNCE_NS,
        (direction == ScrollDirection::Down && !at_bottom) || (direction == ScrollDirection::Up
            && !at_top) || direction == ScrollDirection::Still,
    ensures
        scroll_step(s, now, direction, at_top, at_bottom) == (s, ScrollAction::Pass),
{
}

/// At the edges the page does turn: once the debounce time has passed,
/// scrolling down at the end of a chapter that has a next one opens it, and
/// scrolling up at the start of a chapter that has a previous one opens it.
pub proof fn lemma_page_turns_at_edges(s: NavState, now: nat, i: nat, at_top: bool, at_bottom: bool)
    requires
        nav_wf(s),
        elapsed(now, s.last_change_ns) >= DEBOUNCE_NS,
        s.selected == Some(i),
    ensures
        i + 1 < s.chapter_ids.len() ==> scroll_step(s, now, ScrollDirection::Down, at_top, true).1
            == ScrollAction::Open((i + 1) as usize),
        i > 0 ==> scroll_step(s, now, ScrollDirection::Up, true, at_bottom).1 == ScrollAction::Open(
            (i - 1) as usize,
        ),
{
}

/// Opening a chapter shows it from its end exactly when the state says so,
/// whichever chapter is opened and whichever was selected before.
pub proof fn lemma_open_from_end_as_flagged(s: NavState, index: nat)
    ensures
        select_step(s, index).1 == s.scroll_to_bottom,
        !select_step(s, index).0.scroll_to_bottom,
{
}

/// The flag to show the next chapter from its end is raised only by turning
/// a page back (scrolling up past the start), and lowered by turning a page
/// forward; other scrolls leave it as it is.
pub proof fn lemma_from_end_only_after_turning_back(
    s: NavState,
    now: nat,
    direction: ScrollDirection,
    at_top: bool,
    at_bottom: bool,
)
    ensures
        ({
            let (t, a) = scroll_step(s, now, direction, at_top, at_bottom);
            t.scroll_to_bottom == if a is Open {
                direction == ScrollDirection::Up
            } else {
                s.scroll_to_bottom
            }
        }),
{
}

/// Chapters opened one after the other from the sidebar, with no page turn
/// in between, are all shown from their start.
pub proof fn lemma_sidebar_clicks_open_from_start(s: NavState, i: nat, j: nat)
    requires
        nav_wf(s),
        i < s.chapter_ids.len(),
        j < s.chapter_ids.len(),
    ensures
        !select_step(select_step(s, i).0, j).1,
{
}

/// The debounce window in terms of the clock: a scroll earlier than
/// `DEBOUNCE_NS` after the last page turn (or before it) is swallowed and
/// changes nothing; from then on no scroll is swallowed.
pub proof fn lemma_debounce_window(
    s: NavState,
    now: nat,
    direction: ScrollDirection,
    at_top: bool,
    at_bottom: bool,
)
    ensures
        now < s.last_change_ns + DEBOUNCE_NS ==> scroll_step(s, now, direction, at_top, at_bottom)
            == (s, ScrollAction::Ignore),
        now >= s.last_change_ns + DEBOUNCE_NS ==> scroll_step(
            s,
            now,
            direction,
            at_top,
            at_bottom,
        ).1 != ScrollAction::Ignore,
{
}

} // verus!
