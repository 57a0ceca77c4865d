//! The fixed order of the slides, and the moves between neighbouring slides.

use crate::text::{chars_of, same_chars, trim, trim_bounds};
use vstd::prelude::*;
use vstd::string::{StrSliceExecFns, StringExecFns};

verus! {

/// The number of slides.
pub const SLIDE_COUNT: usize = 9;

/// A move from one slide to a neighbour.
#[derive(Clone, Copy, Debug, PartialEq, Eq, Structural)]
pub enum NavAction {
    /// Go to the slide after the current one.
    Next,
    /// Go to the slide before the current one.
    Previous,
    /// Stay on the current slide.
    Stay,
}

/// The paths of the slides, in the order in which they are shown.
pub open spec fn slide_order() -> Seq<Seq<char>> {
    seq![
        "/"@,
        "/motivation"@,
        "/background"@,
        "/rationale"@,
        "/methods"@,
        "/results"@,
        "/discussion"@,
        "/future"@,
        "/video"@,
    ]
}

/// The canonical form of a path: without white space around it, without one
/// trailing slash, and with a leading slash.
pub open spec fn normalized(path: Seq<char>) -> Seq<char> {
    let t = trim(path);
    let body = if t.len() > 0 && t.last() == '/' {
        t.drop_last()
    } else {
        t
    };
    if body.len() > 0 && body[0] == '/' {
        body
    } else {
        seq!['/'] + body
    }
}

/// The first index at which `path` stands in `order`.
pub open spec fn index_in(order: Seq<Seq<char>>, path: Seq<char>) -> Option<int>
    decreases order.len(),
{
    if order.len() == 0 {
        None
    } else {
        match index_in(order.drop_last(), path) {
            Some(i) => Some(i),
            None => if order.last() == path {
                Some(order.len() - 1)
            } else {
                None
            },
        }
    }
}

/// The path of the slide after the one at `path`, if `path` is a slide and
/// not the last one.
pub open spec fn next_slide(path: Seq<char>) -> Option<Seq<char>> {
    match index_in(slide_order(), path) {
        Some(i) => if i + 1 < slide_order().len() {
            Some(slide_order()[i + 1])
        } else {
            None
        },
        None => None,
    }
}

/// The path of the slide before the one at `path`, if `path` is a slide and
/// not the first one.
pub open spec fn prev_slide(path: Seq<char>) -> Option<Seq<char>> {
    match index_in(slide_order(), path) {
        Some(i) => if i > 0 {
            Some(slide_order()[i - 1])
        } else {
            None
        },
        None => None,
    }
}

/// The move that a key asks for: the right arrow and the space bar go on,
/// the left arrow goes back, and a key pressed together with a modifier
/// does nothing, as does any other key.
pub open spec fn action_of(key: Seq<char>, modified: bool) -> NavAction {
    if modified {
        NavAction::Stay
    } else if key == "ArrowRight"@ || key == " "@ {
        NavAction::Next
    } else if key == "ArrowLeft"@ {
        NavAction::Previous
    } else {
        NavAction::Stay
    }
}

/// An index found in a list is within it, names an entry equal to the path,
/// and no earlier entry is equal to it; where none is found, no entry is.
pub proof fn lemma_index_in(order: Seq<Seq<char>>, path: Seq<char>)
    ensures
        match index_in(order, path) {
            Some(i) => 0 <= i < order.len() && order[i] == path && forall|k: int|
                0 <= k < i ==> order[k] != path,
            None => forall|k: int| 0 <= k < order.len() ==> order[k] != path,
        },
    decreases order.len(),
{
    if order.len() > 0 {
        let front = order.drop_last();
        lemma_index_in(front, path);
        assert(forall|k: int| 0 <= k < front.len() ==> front[k] == order[k]);
    }
}

/// The path of the slide at `index`.
pub fn slide_path(index: usize) -> (r: &'static str)
    requires
        index < SLIDE_COUNT,
    ensures
        r@ == slide_order()[index as int],
{
    match index {
        0 => "/",
        1 => "/motivation",
        2 => "/background",
        3 => "/rationale",
        4 => "/methods",
        5 => "/results",
        6 => "/discussion",
        7 => "/future",
        _ => "/video",
    }
}

/// The canonical form of a path.
pub fn normalize_path(path: &str) -> (r: String)
    ensures
        r@ == normalized(path@),
{
    let chars = chars_of(path);
    let (a, b) = trim_bounds(&chars);
    let end: usize = if b > a && chars[b - 1] == '/' {
        b - 1
    } else {
        b
    };
    let body = path.substring_char(a, end);
    proof {
        reveal_strlit("/");
        let t = chars@.subrange(a as int, b as int);
        if b > a && chars@[b - 1] == '/' {
            assert(body@ =~= t.drop_last());
        } else {
            assert(body@ =~= t);
        }
        assert("/"@ =~= seq!['/']);
    }
    if end > a && chars[a] == '/' {
        String::from_str(body)
    } else {
        String::from_str("/").concat(body)
    }
}

/// Where the path stands in the order of the slides.
pub fn slide_index(path: &Vec<char>) -> (r: Option<usize>)
    ensures
        match r {
            Some(i) => index_in(slide_order(), path@) == Some(i as int) && i < SLIDE_COUNT,
            None => index_in(slide_order(), path@) is None,
        },
{
    let mut i: usize = 0;
    while i < SLIDE_COUNT
        invariant
            i <= SLIDE_COUNT,
            forall|k: int| 0 <= k < i ==> slide_order()[k] != path@,
        decreases SLIDE_COUNT - i,
    {
        let candidate = chars_of(slide_path(i));
        if same_chars(&candidate, path) {
            proof {
                lemma_index_in(slide_order(), path@);
            }
            return Some(i);
        }
        i += 1;
    }
    proof {
        lemma_index_in(slide_order(), path@);
    }
    None
}

/// The path of the slide after the current one; `None` on the last slide
/// and where the current path is no slide.
pub fn get_next_route(current_path: &str) -> (r: Option<&'static str>)
    ensures
        match next_slide(normalized(current_path@)) {
            Some(p) => r is Some && r.unwrap()@ == p,
            None => r is None,
        },
{
    let here = normalize_path(current_path);
    let chars = chars_of(here.as_str());
    match slide_index(&chars) {
        Some(i) => if i + 1 < SLIDE_COUNT {
            Some(slide_path(i + 1))
        } else {
            None
        },
        None => None,
    }
}

/// The path of the slide before the current one; `None` on the first slide
/// and where the current path is no slide.
pub fn get_prev_route(current_path: &str) -> (r: Option<&'static str>)
    ensures
        match prev_slide(normalized(current_path@)) {
            Some(p) => r is Some && r.unwrap()@ == p,
            None => r is None,
        },
{
    let here = normalize_path(current_path);
    let chars = chars_of(here.as_str());
    match slide_index(&chars) {
        Some(i) => if i > 0 {
            Some(slide_path(i - 1))
        } else {
            None
        },
        None => None,
    }
}

/// The move that a key press asks for, given the key's name and which
/// modifier keys were held.
pub fn key_action(key: &str, alt: bool, ctrl: bool, meta: bool, shift: bool) -> (r: NavAction)
    ensures
        r == action_of(key@, alt || ctrl || meta || shift),
{
    if alt || ctrl || meta || shift {
        return NavAction::Stay;
    }
    let pressed = chars_of(key);
    let right = chars_of("ArrowRight");
    let space = chars_of(" ");
    let left = chars_of("ArrowLeft");
    if same_chars(&pressed, &right) || same_chars(&pressed, &space) {
        NavAction::Next
    } else if same_chars(&pressed, &left) {
        NavAction::Previous
    } else {
        NavAction::Stay
    }
}

} // verus!
