//! File names of `/`-separated paths.

use vstd::prelude::*;
use crate::text::{chars_of, find_last};

verus! {

/// A path component that names nothing by itself: an empty one (two separators
/// in a row, or a trailing separator) or a single dot.
pub open spec fn is_blank_component(part: Seq<char>) -> bool {
    part.len() == 0 || (part.len() == 1 && part[0] == '.')
}

/// The component `..`, which names the parent directory.
pub open spec fn is_parent_component(part: Seq<char>) -> bool {
    part.len() == 2 && part[0] == '.' && part[1] == '.'
}

/// The file name of a `/`-separated path: its last component once trailing
/// blank components are set aside. A path that ends in `..`, or that has no
/// component left, has no file name.
pub open spec fn final_component(path: Seq<char>) -> Option<Seq<char>>
    decreases path.len(),
{
    match path.index_of_last('/') {
        Some(cut) => {
            let last = path.skip(cut + 1);
            if is_blank_component(last) {
                proof {
                    path.index_of_last_ensures('/');
                }
                final_component(path.take(cut))
            } else if is_parent_component(last) {
                None
            } else {
                Some(last)
            }
        },
        None => if is_blank_component(path) || is_parent_component(path) {
            None
        } else {
            Some(path)
        },
    }
}

/// A file name is a true component of its path: it is not empty, holds no
/// separator, is neither `.` nor `..`, and stands in the path between
/// separators or the path's ends.
pub proof fn lemma_final_component_is_name(path: Seq<char>)
    ensures
        match final_component(path) {
            Some(name) => {
                &&& name.len() > 0
                &&& !name.contains('/')
                &&& !is_blank_component(name)
                &&& !is_parent_component(name)
                &&& exists|start: int, end: int|
                    {
                        &&& 0 <= start < end <= path.len()
                        &&& #[trigger] path.subrange(start, end) == name
                        &&& (start == 0 || path[start - 1] == '/')
                        &&& (end == path.len() || path[end] == '/')
                    }
            },
            None => true,
        },
    decreases path.len(),
{
    path.index_of_last_ensures('/');
    match path.index_of_last('/') {
        Some(cut) => {
            let last = path.skip(cut + 1);
            if is_blank_component(last) {
                let shorter = path.take(cut);
                lemma_final_component_is_name(shorter);
                if let Some(name) = final_component(shorter) {
                    let (start, end) = choose|start: int, end: int|
                        {
                            &&& 0 <= start < end <= shorter.len()
                            &&& #[trigger] shorter.subrange(start, end) == name
                            &&& (start == 0 || shorter[start - 1] == '/')
                            &&& (end == shorter.len() || shorter[end] == '/')
                        };
                    assert(path.subrange(start, end) == shorter.subrange(start, end));
                }
            }
        },
        None => {
            if !is_blank_component(path) && !is_parent_component(path) {
                assert(path.subrange(0, path.len() as int) == path);
            }
        },
    }
}

/// The file name of `path`, as `final_component` defines it.
pub fn basename(path: &str) -> (name: Option<String>)
    ensures
        name.deep_view() == final_component(path@),
{
    let chars = chars_of(path);
    let mut end: usize = chars.len();
    assert(path@.take(end as int) == path@);
    loop
        invariant
            chars@ == path@,
            end <= chars.len(),
            final_component(path@) == final_component(path@.take(end as int)),
        decreases end,
    {
        let ghost head = path@.take(end as int);
        let found = find_last(&chars, end, '/');
        proof {
            head.index_of_last_ensures('/');
        }
        let start: usize = match found {
            Some(cut) => cut + 1,
            None => 0,
        };
        let len = end - start;
        let blank = len == 0 || (len == 1 && chars[start] == '.');
        let parent = len == 2 && chars[start] == '.' && chars[start + 1] == '.';
        if blank {
            if start == 0 {
                return None;
            }
            assert(head.take(start - 1) == path@.take(start - 1));
            end = start - 1;
        } else if parent {
            return None;
        } else {
            let name = path.substring_char(start, end);
            return Some(name.to_owned());
        }
    }
}

} // verus!
