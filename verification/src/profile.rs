//! Chat-platform value types and the profile-selection rules.
//!
//! The transport that talks to the chat platform lives outside the library;
//! these are the plain values it exchanges with the core, and the two
//! decisions taken over a fetched profile: which name to show and which
//! image entry to download an icon from.

use vstd::prelude::*;

verus! {

/// An error reported by the chat platform, carrying the raw response text.
#[derive(Debug)]
pub struct SlackError(pub String);

/// A participant's profile, as far as the game cares: the id it was fetched
/// for, the chosen display name, and the icon image bytes, when any.
#[derive(Debug)]
pub struct UserInfo {
    pub user_id: String,
    pub name: Option<String>,
    pub icon_data: Option<Vec<u8>>,
}

/// One inbound chat event, reduced to what a turn request needs.
#[derive(Debug)]
pub struct Message {
    pub event_type: String,
    pub channel_id: String,
    pub user_id: String,
    pub text: String,
}

/// The name a profile shows for a participant: the display name when the
/// profile carries one, overridden by the real name only when the carried
/// display name is empty; a profile without a display name entry yields no
/// name, whatever the real name says.
pub fn choose_display_name(display_name: Option<String>, real_name: Option<String>) -> (r: Option<
    String,
>)
    ensures
        match display_name {
            Option::None => r is None,
            Option::Some(d) => if d@.len() == 0 {
                if real_name is Some {
                    r == real_name
                } else {
                    r == Some(d)
                }
            } else {
                r == Some(d)
            },
        },
{
    match display_name {
        Option::None => None,
        Option::Some(d) => {
            let empty = String::new();
            if d == empty {
                proof {
                    assert(d@ =~= Seq::<char>::empty());
                }
                if real_name.is_some() {
                    real_name
                } else {
                    Some(d)
                }
            } else {
                proof {
                    if d@.len() == 0 {
                        assert(d@ =~= Seq::<char>::empty());
                    }
                }
                Some(d)
            }
        },
    }
}

/// The first image entry of a sequence that is present, in order.
pub open spec fn first_present(s: Seq<Option<String>>) -> Option<String>
    decreases s.len(),
{
    if s.len() == 0 {
        None
    } else if s[0] is Some {
        s[0]
    } else {
        first_present(s.drop_first())
    }
}

/// The icon source a profile offers: the first image entry that is present,
/// in the priority order handed in (largest first in the chat platform's
/// profiles).
pub fn choose_icon_url(candidates: &Vec<Option<String>>) -> (r: Option<String>)
    ensures
        r == first_present(candidates@),
{
    let n = candidates.len();
    let mut i: usize = 0;
    while i < n
        invariant
            0 <= i <= n,
            n == candidates@.len(),
            forall|j: int| 0 <= j < i ==> (#[trigger] candidates@[j]) is None,
        decreases n - i,
    {
        match &candidates[i] {
            Option::Some(u) => {
                proof {
                    lemma_first_present_at(candidates@, i as int);
                }
                return Some(u.clone());
            },
            Option::None => {},
        }
        i = i + 1;
    }
    proof {
        lemma_first_present_at(candidates@, n as int);
    }
    None
}

/// When the first `i` entries are absent, the first present entry is the one
/// at `i` if it exists and is present, and none when the whole sequence is
/// exhausted.
proof fn lemma_first_present_at(s: Seq<Option<String>>, i: int)
    requires
        0 <= i <= s.len(),
        forall|j: int| 0 <= j < i ==> (#[trigger] s[j]) is None,
    ensures
        i < s.len() ==> first_present(s) == if s[i] is Some {
            s[i]
        } else {
            first_present(s)
        },
        i < s.len() && s[i] is Some ==> first_present(s) == s[i],
        i == s.len() ==> first_present(s) is None,
    decreases i, s.len(),
{
    if i == 0 {
        if s.len() == 0 {
        } else if s[0] is Some {
        }
    } else {
        lemma_first_present_at(s.drop_first(), i - 1);
        assert(s[0] is None);
    }
}

} // verus!
