//! Choosing a colour palette by name.

use vstd::prelude::*;
use crate::text::{ascii_lower, ascii_lowercase, chars_of, debug_quoted, debug_text, lowercase_matches};

verus! {

/// The palettes the renderer offers.
#[derive(PartialEq, Eq, Structural, Clone, Copy, Debug)]
pub enum PaletteName {
    Dusk,
    Ember,
    Aurora,
}

/// The palette a name stands for, the name's case not mattering in ASCII.
pub open spec fn palette_named(name: Seq<char>) -> Option<PaletteName> {
    let lower = ascii_lowercase(name);
    if lower == "dusk"@ {
        Some(PaletteName::Dusk)
    } else if lower == "ember"@ {
        Some(PaletteName::Ember)
    } else if lower == "aurora"@ {
        Some(PaletteName::Aurora)
    } else {
        None
    }
}

/// The message for a name that stands for no palette.
pub open spec fn unknown_palette_message(name: Seq<char>) -> Seq<char> {
    "unknown palette "@ + debug_quoted(name) + "; available palettes: dusk, ember, aurora"@
}

/// The palette called `name` (`"dusk"`, `"ember"` or `"aurora"`, in any
/// ASCII case), or the message that lists the palettes there are.
pub fn palette_by_name(name: &str) -> (r: Result<PaletteName, String>)
    ensures
        match palette_named(name@) {
            Some(p) => r == Ok::<PaletteName, String>(p),
            None => r matches Err(msg) && msg@ == unknown_palette_message(name@),
        },
{
    let chars = chars_of(name);
    if lowercase_matches(&chars, &chars_of("dusk")) {
        Ok(PaletteName::Dusk)
    } else if lowercase_matches(&chars, &chars_of("ember")) {
        Ok(PaletteName::Ember)
    } else if lowercase_matches(&chars, &chars_of("aurora")) {
        Ok(PaletteName::Aurora)
    } else {
        let mut msg = String::from_str("unknown palette ");
        let quoted = debug_text(name);
        msg.append(quoted.as_str());
        msg.append("; available palettes: dusk, ember, aurora");
        Err(msg)
    }
}

/// Case does not matter: a name and its ASCII lower-case form choose the
/// same palette.
pub proof fn lemma_palette_name_case_insensitive(name: Seq<char>)
    ensures
        palette_named(name) == palette_named(ascii_lowercase(name)),
{
    let lower = ascii_lowercase(name);
    assert(ascii_lowercase(lower) =~= lower);
}

/// Whether `s` is the lower-case word `t` with any of its letters
/// possibly written as capitals.
pub open spec fn same_ignoring_ascii_case(s: Seq<char>, t: Seq<char>) -> bool {
    &&& s.len() == t.len()
    &&& forall|i: int|
        0 <= i < s.len() ==> (#[trigger] s[i] == t[i] || ('a' <= t[i] && t[i] <= 'z' && (s[i] as u32)
            + 32 == (t[i] as u32)))
}

proof fn lemma_lowercase_word(s: Seq<char>, t: Seq<char>)
    requires
        forall|i: int| 0 <= i < t.len() ==> 'a' <= #[trigger] t[i] && t[i] <= 'z',
    ensures
        same_ignoring_ascii_case(s, t) <==> ascii_lowercase(s) == t,
{
    if same_ignoring_ascii_case(s, t) {
        assert forall|i: int| 0 <= i < s.len() implies #[trigger] ascii_lowercase(s)[i] == t[i] by {
            assert('a' <= t[i] && t[i] <= 'z');
        }
        assert(ascii_lowercase(s) =~= t);
    }
    if ascii_lowercase(s) == t {
        assert forall|i: int| 0 <= i < s.len() implies (#[trigger] s[i] == t[i] || ('a' <= t[i] && t[i]
            <= 'z' && (s[i] as u32) + 32 == (t[i] as u32))) by {
            assert(ascii_lowercase(s)[i] == t[i]);
            assert('a' <= t[i] && t[i] <= 'z');
        }
    }
}

/// A name chooses a palette exactly when it is that palette's name with any
/// letters possibly in capitals: `"AURORA"`, `"Aurora"` and `"aurora"` all
/// choose the aurora palette, and nothing else does.
pub proof fn lemma_palette_names_ignore_case(s: Seq<char>)
    ensures
        palette_named(s) == Some(PaletteName::Dusk) <==> same_ignoring_ascii_case(s, "dusk"@),
        palette_named(s) == Some(PaletteName::Ember) <==> same_ignoring_ascii_case(s, "ember"@),
        palette_named(s) == Some(PaletteName::Aurora) <==> same_ignoring_ascii_case(s, "aurora"@),
{
    reveal_strlit("dusk");
    reveal_strlit("ember");
    reveal_strlit("aurora");
    lemma_lowercase_word(s, "dusk"@);
    lemma_lowercase_word(s, "ember"@);
    lemma_lowercase_word(s, "aurora"@);
}

} // verus!
