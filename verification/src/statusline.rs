use vstd::prelude::*;
use crate::confession::string_views;
use crate::text::push_str;

verus! {

/// A key and what it does, as shown in the status line and the help.
#[derive(Clone, Copy, Debug)]
pub struct KeybindHint {
    pub key: &'static str,
    pub label: &'static str,
}

/// The text of one hint in the status line: key, space, label, three spaces.
pub open spec fn hint_text(h: KeybindHint) -> Seq<char> {
    h.key@ + " "@ + h.label@ + "   "@
}

/// The status-line text of each hint, in order.
pub fn hint_segments(hints: &[KeybindHint]) -> (v: Vec<String>)
    ensures
        string_views(v@) == hints@.map_values(|h: KeybindHint| hint_text(h)),
{
    let mut v: Vec<String> = Vec::new();
    let mut i: usize = 0;
    while i < hints.len()
        invariant
            i <= hints.len(),
            string_views(v@) == hints@.take(i as int).map_values(|h: KeybindHint| hint_text(h)),
        decreases hints.len() - i,
    {
        let h = hints[i];
        let mut s = String::new();
        push_str(&mut s, h.key);
        push_str(&mut s, " ");
        push_str(&mut s, h.label);
        push_str(&mut s, "   ");
        let ghost before = v@;
        v.push(s);
        assert(string_views(v@) =~= string_views(before).push(s@));
        assert(hints@.take(i + 1).map_values(|h: KeybindHint| hint_text(h)) =~= hints@.take(
            i as int,
        ).map_values(|h: KeybindHint| hint_text(h)).push(hint_text(h)));
        assert(s@ =~= hint_text(h));
        i += 1;
    }
    assert(hints@.take(hints.len() as int) =~= hints@);
    v
}

} // verus!
