//! Calendar selection: which talks belong in a calendar export.
//!
//! The text rendering of the calendar lives outside the library; the
//! selection of talks — all of them, or only those a given user signed up
//! for — is decided here.

use vstd::prelude::*;

use crate::storage::{Storage, Talk, TalkView};
use crate::talks::contains_id;

verus! {

/// Parameters of a calendar request: an optional user to filter by.
#[derive(Clone, Copy, Debug)]
pub struct ICalendarParameters {
    pub user_id: Option<u64>,
}

/// Whether a talk belongs in the calendar for this filter: with no filter
/// every talk does, with a user filter only the talks the user signed up
/// for, on either side.
pub open spec fn calendar_selects(filter: Option<u64>, talk: TalkView) -> bool {
    match filter {
        None => true,
        Some(user_id) => talk.nerds.contains(user_id) || talk.noobs.contains(user_id),
    }
}

impl Storage {
    /// The talks selected for a calendar request, in store order.
    pub fn get_talks(&self, parameters: &ICalendarParameters) -> (r: Vec<Talk>)
        ensures
            r@.map_values(|t: Talk| t@) == self@.talks.filter(
                |t: TalkView| calendar_selects(parameters.user_id, t),
            ),
    {
        let ghost pred = |t: TalkView| calendar_selects(parameters.user_id, t);
        let n = self.talks.len();
        let mut r: Vec<Talk> = Vec::new();
        let mut i: usize = 0;
        proof {
            reveal(Seq::filter);
            assert(self@.talks.take(0).len() == 0);
            assert(r@.map_values(|t: Talk| t@) =~= self@.talks.take(0).filter(pred));
        }
        while i < n
            invariant
                n == self.talks.len(),
                0 <= i <= n,
                r@.map_values(|t: Talk| t@) == self@.talks.take(i as int).filter(
                    |t: TalkView| calendar_selects(parameters.user_id, t),
                ),
            decreases n - i,
        {
            let ghost pred = |t: TalkView| calendar_selects(parameters.user_id, t);
            proof {
                reveal(Seq::filter);
                assert(self@.talks.take(i + 1).drop_last() =~= self@.talks.take(i as int));
                assert(self@.talks.take(i + 1).last() == self@.talks[i as int]);
            }
            let ghost r0 = r@.map_values(|t: Talk| t@);
            let selected = match parameters.user_id {
                None => true,
                Some(user_id) => contains_id(&self.talks[i].nerds, user_id) || contains_id(
                    &self.talks[i].noobs,
                    user_id,
                ),
            };
            if selected {
                r.push(self.talks[i].clone_talk());
                proof {
                    reveal(Seq::filter);
                    assert(pred(self@.talks.take(i + 1).last()));
                    assert(self@.talks.take(i + 1).filter(pred) == self@.talks.take(
                        i as int,
                    ).filter(pred).push(self@.talks[i as int]));
                    assert(r@.map_values(|t: Talk| t@) =~= r0.push(self@.talks[i as int]));
                }
            } else {
                proof {
                    reveal(Seq::filter);
                    assert(!pred(self@.talks.take(i + 1).last()));
                    assert(self@.talks.take(i + 1).filter(pred) == self@.talks.take(
                        i as int,
                    ).filter(pred));
                }
            }
            i += 1;
        }
        proof {
            assert(self@.talks.take(n as int) =~= self@.talks);
        }
        r
    }
}

} // verus!
