//! The order in which a job announces its pages.
//!
//! Each print information command says whether the page that follows is the
//! first of several, one in the middle, or the last or only one.

use vstd::prelude::*;
use crate::error::FormatError;

verus! {

/// Announcement value for the first page of several.
pub const PAGE_FIRST: u8 = 0;

/// Announcement value for a page in the middle.
pub const PAGE_OTHER: u8 = 1;

/// Announcement value for the last or only page.
pub const PAGE_LAST: u8 = 2;

/// Which page of a job the stream has announced last.
#[derive(Clone, Copy, Debug, PartialEq, Eq, Structural)]
pub enum PageAnnouncementState {
    BeforeFirst,
    First,
    Other,
    Last,
}

/// The state after announcing `value` in `state`.
///
/// A first page may only be announced before any other; a middle page only
/// after a first or another middle page; a last page at any point but right
/// after a last page.
pub open spec fn announce_spec(state: PageAnnouncementState, value: u8) -> Result<
    PageAnnouncementState,
    FormatError,
> {
    if value == PAGE_FIRST {
        if state == PageAnnouncementState::BeforeFirst {
            Ok(PageAnnouncementState::First)
        } else {
            Err(FormatError::PageAnnouncement { announced: value, state })
        }
    } else if value == PAGE_OTHER {
        if state == PageAnnouncementState::First || state == PageAnnouncementState::Other {
            Ok(PageAnnouncementState::Other)
        } else {
            Err(FormatError::PageAnnouncement { announced: value, state })
        }
    } else if value == PAGE_LAST {
        if state != PageAnnouncementState::Last {
            Ok(PageAnnouncementState::Last)
        } else {
            Err(FormatError::PageAnnouncement { announced: value, state })
        }
    } else {
        Err(FormatError::UnknownPageAnnouncement { value })
    }
}

impl PageAnnouncementState {
    /// The state after announcing `value`, or the reason why `value` cannot
    /// be announced now.
    pub fn announce(self, value: u8) -> (r: Result<PageAnnouncementState, FormatError>)
        ensures
            r == announce_spec(self, value),
    {
        if value == PAGE_FIRST {
            match self {
                PageAnnouncementState::BeforeFirst => Ok(PageAnnouncementState::First),
                _ => Err(FormatError::PageAnnouncement { announced: value, state: self }),
            }
        } else if value == PAGE_OTHER {
            match self {
                PageAnnouncementState::First | PageAnnouncementState::Other => Ok(
                    PageAnnouncementState::Other,
                ),
                _ => Err(FormatError::PageAnnouncement { announced: value, state: self }),
            }
        } else if value == PAGE_LAST {
            match self {
                PageAnnouncementState::Last => Err(
                    FormatError::PageAnnouncement { announced: value, state: self },
                ),
                _ => Ok(PageAnnouncementState::Last),
            }
        } else {
            Err(FormatError::UnknownPageAnnouncement { value })
        }
    }
}

/// An announcement is refused exactly where the pages announced so far do
/// not allow it, and the refusal names the value and the state it met.
///
/// Once any page has been announced no first page can follow, and a middle
/// page needs a first or middle page before it.
pub proof fn lemma_announcement_order(state: PageAnnouncementState, value: u8)
    ensures
        announce_spec(state, PAGE_FIRST) is Ok <==> state == PageAnnouncementState::BeforeFirst,
        announce_spec(state, PAGE_OTHER) is Ok <==> (state == PageAnnouncementState::First || state
            == PageAnnouncementState::Other),
        announce_spec(state, PAGE_LAST) is Ok <==> state != PageAnnouncementState::Last,
        value <= PAGE_LAST && announce_spec(state, value) is Err ==> announce_spec(state, value)
            == Err::<PageAnnouncementState, FormatError>(
            FormatError::PageAnnouncement { announced: value, state },
        ),
        value > PAGE_LAST ==> announce_spec(state, value) == Err::<
            PageAnnouncementState,
            FormatError,
        >(FormatError::UnknownPageAnnouncement { value }),
        announce_spec(state, value) matches Ok(next) ==> announce_spec(next, PAGE_FIRST) is Err,
{
}

} // verus!
