//! The records of the tracking feed, the summary that is made of one, and
//! what is remembered of the messages sent for it.

use crate::text::{same_text, texts};
use vstd::prelude::*;
use vstd::seq_lib::*;

verus! {

/// A point in time without a time zone: whole seconds since the start of
/// 1970 and the nanoseconds within that second.
#[derive(Debug, Clone, Copy, PartialEq, Eq, PartialOrd, Ord, Structural)]
pub struct Timestamp {
    pub secs: i64,
    pub nanos: u32,
}

/// One record of the feed: a proposal with the users asked, each with
/// whether they approved, its issue and the comment that tracks its status.
#[derive(Debug, PartialEq, Eq, PartialOrd, Ord)]
pub struct FcpWithInfo {
    pub fcp: FcpProposal,
    pub reviews: Vec<(GitHubUser, bool)>,
    pub issue: Issue,
    pub status_comment: IssueComment,
}

/// A proposal as the feed gives it.
#[derive(Debug, PartialEq, Eq, PartialOrd, Ord)]
pub struct FcpProposal {
    pub id: i32,
    pub fk_issue: i32,
    pub fk_initiator: i32,
    pub fk_initiating_comment: i32,
    pub disposition: String,
    pub fk_bot_tracking_comment: i32,
    pub fcp_start: Option<Timestamp>,
    pub fcp_closed: bool,
}

/// A user as the feed gives it.
#[derive(Debug, PartialEq, Eq, PartialOrd, Ord)]
pub struct GitHubUser {
    pub id: i32,
    pub login: String,
}

/// An issue or pull request as the feed gives it.
#[derive(Debug, PartialEq, Eq, PartialOrd, Ord)]
pub struct Issue {
    pub id: i32,
    pub number: i32,
    pub fk_milestone: Option<i32>,
    pub fk_user: i32,
    pub fk_assignee: Option<i32>,
    pub open: bool,
    pub is_pull_request: bool,
    pub title: String,
    pub body: String,
    pub locked: bool,
    pub closed_at: Option<Timestamp>,
    pub created_at: Timestamp,
    pub updated_at: Timestamp,
    pub labels: Vec<String>,
    pub repository: String,
}

/// A comment on an issue as the feed gives it.
#[derive(Debug, PartialEq, Eq, PartialOrd, Ord)]
pub struct IssueComment {
    pub id: i32,
    pub fk_issue: i32,
    pub fk_user: i32,
    pub body: String,
    pub created_at: Timestamp,
    pub updated_at: Timestamp,
    pub repository: String,
}

/// What a message says about one proposal.
#[derive(Debug, PartialEq, Eq, PartialOrd, Ord)]
pub struct FCPInfo {
    pub id: i32,
    pub tags: Vec<String>,
    pub title: String,
    pub repo: String,
    pub issue: i32,
    pub is_pr: bool,
    pub created_at: Timestamp,
    pub updated_at: Timestamp,
    pub approved: Vec<String>,
    pub pending: Vec<String>,
}

/// A proposal summary as plain values.
pub struct Proposal {
    pub id: int,
    pub tags: Seq<Seq<char>>,
    pub title: Seq<char>,
    pub repo: Seq<char>,
    pub issue: int,
    pub is_pr: bool,
    pub created_at: Timestamp,
    pub updated_at: Timestamp,
    pub approved: Seq<Seq<char>>,
    pub pending: Seq<Seq<char>>,
}

impl View for FCPInfo {
    type V = Proposal;

    open spec fn view(&self) -> Proposal {
        Proposal {
            id: self.id as int,
            tags: texts(self.tags@),
            title: self.title@,
            repo: self.repo@,
            issue: self.issue as int,
            is_pr: self.is_pr,
            created_at: self.created_at,
            updated_at: self.updated_at,
            approved: texts(self.approved@),
            pending: texts(self.pending@),
        }
    }
}

/// The logins of all users of a list, in its order.
pub open spec fn logins(reviews: Seq<(GitHubUser, bool)>) -> Seq<Seq<char>> {
    reviews.map_values(|r: (GitHubUser, bool)| r.0.login@)
}

/// The logins of the users whose approval is `approval`, in the order in
/// which the feed lists them.
pub open spec fn logins_with(reviews: Seq<(GitHubUser, bool)>, approval: bool) -> Seq<Seq<char>> {
    logins(reviews.filter(|r: (GitHubUser, bool)| r.1 == approval))
}

/// The logins with an approval among the first users of a list and the next
/// user: one more where that user's approval is the one asked for.
proof fn lemma_logins_with_next(reviews: Seq<(GitHubUser, bool)>, i: int, approval: bool)
    requires
        0 <= i < reviews.len(),
    ensures
        logins_with(reviews.take(i + 1), approval) == if reviews[i].1 == approval {
            logins_with(reviews.take(i), approval).push(reviews[i].0.login@)
        } else {
            logins_with(reviews.take(i), approval)
        },
{
    reveal(Seq::filter);
    let pred = |r: (GitHubUser, bool)| r.1 == approval;
    assert(reviews.take(i + 1).drop_last() =~= reviews.take(i));
    if reviews[i].1 == approval {
        assert(logins(reviews.take(i).filter(pred).push(reviews[i])) =~= logins(
            reviews.take(i).filter(pred),
        ).push(reviews[i].0.login@));
    }
}

/// Each login stands among those who approved and those who have not as
/// often, taken together, as the feed lists it: a user who is listed once is
/// in exactly one of the two.
pub proof fn lemma_logins_partition(reviews: Seq<(GitHubUser, bool)>, login: Seq<char>)
    ensures
        logins_with(reviews, true).to_multiset().count(login) + logins_with(
            reviews,
            false,
        ).to_multiset().count(login) == logins(reviews).to_multiset().count(login),
    decreases reviews.len(),
{
    broadcast use group_to_multiset_ensures;

    if reviews.len() == 0 {
        reveal(Seq::filter);
        assert(logins(reviews) =~= Seq::<Seq<char>>::empty());
        assert(logins_with(reviews, true) =~= Seq::<Seq<char>>::empty());
        assert(logins_with(reviews, false) =~= Seq::<Seq<char>>::empty());
        assert(Seq::<Seq<char>>::empty().to_multiset().count(login) == 0) by {
            if Seq::<Seq<char>>::empty().to_multiset().count(login) > 0 {
                assert(Seq::<Seq<char>>::empty().contains(login));
            }
        }
    } else {
        let rest = reviews.drop_last();
        let last = reviews.last().0.login@;
        lemma_logins_partition(rest, login);
        assert(reviews.take(reviews.len() as int) =~= reviews);
        assert(reviews.take(reviews.len() - 1) =~= rest);
        lemma_logins_with_next(reviews, reviews.len() - 1, true);
        lemma_logins_with_next(reviews, reviews.len() - 1, false);
        assert(logins(reviews) =~= logins(rest).push(last));
        to_multiset_build(logins(rest), last);
        to_multiset_build(logins_with(rest, true), last);
        to_multiset_build(logins_with(rest, false), last);
    }
}

/// The summary of a feed record: the issue's labels, title, repository,
/// number and dates, the proposal's id, and the logins of the users asked,
/// those who approved apart from those who have not.
pub open spec fn summary_of(info: FcpWithInfo) -> Proposal {
    Proposal {
        id: info.fcp.id as int,
        tags: texts(info.issue.labels@),
        title: info.issue.title@,
        repo: info.issue.repository@,
        issue: info.issue.number as int,
        is_pr: info.issue.is_pull_request,
        created_at: info.issue.created_at,
        updated_at: info.issue.updated_at,
        approved: logins_with(info.reviews@, true),
        pending: logins_with(info.reviews@, false),
    }
}

impl From<FcpWithInfo> for FCPInfo {
    fn from(info: FcpWithInfo) -> (r: Self)
        ensures
            r@ == summary_of(info),
    {
        let mut approved: Vec<String> = Vec::new();
        let mut pending: Vec<String> = Vec::new();
        let mut i: usize = 0;
        proof {
            reveal(Seq::filter);
            assert(info.reviews@.take(0) =~= Seq::<(GitHubUser, bool)>::empty());
            assert(texts(approved@) =~= logins_with(info.reviews@.take(0), true));
            assert(texts(pending@) =~= logins_with(info.reviews@.take(0), false));
        }
        while i < info.reviews.len()
            invariant
                i <= info.reviews.len(),
                texts(approved@) == logins_with(info.reviews@.take(i as int), true),
                texts(pending@) == logins_with(info.reviews@.take(i as int), false),
            decreases info.reviews.len() - i,
        {
            let login = info.reviews[i].0.login.clone();
            proof {
                lemma_logins_with_next(info.reviews@, i as int, true);
                lemma_logins_with_next(info.reviews@, i as int, false);
                assert(texts(approved@.push(login)) =~= texts(approved@).push(login@));
                assert(texts(pending@.push(login)) =~= texts(pending@).push(login@));
            }
            if info.reviews[i].1 {
                approved.push(login);
            } else {
                pending.push(login);
            }
            i += 1;
        }
        assert(info.reviews@.take(i as int) =~= info.reviews@);
        FCPInfo {
            id: info.fcp.id,
            tags: info.issue.labels,
            title: info.issue.title,
            repo: info.issue.repository,
            issue: info.issue.number,
            is_pr: info.issue.is_pull_request,
            created_at: info.issue.created_at,
            updated_at: info.issue.updated_at,
            approved,
            pending,
        }
    }
}

/// What `from` returns is stated by its own `ensures`, over the summary's
/// plain values: as a value with its strings and vectors it has no name.
impl vstd::std_specs::convert::FromSpecImpl<FcpWithInfo> for FCPInfo {
    open spec fn obeys_from_spec() -> bool {
        false
    }

    open spec fn from_spec(info: FcpWithInfo) -> FCPInfo {
        arbitrary()
    }
}

/// What is remembered of the message that a channel holds about a proposal.
#[derive(Debug, Clone, Copy, PartialEq, Eq, Structural)]
pub struct SentMsg {
    /// The handle by which the transport knows the message.
    pub id: i64,
    /// The proposal's date of last change when the message was written.
    pub version: Timestamp,
    /// The version of the layout in which the message was written.
    pub format: usize,
}

/// The channel that each of a list of pairs names is named only once.
pub open spec fn distinct_channels(pairs: Seq<(String, SentMsg)>) -> bool {
    forall|i: int, j: int| 0 <= i < j < pairs.len() ==> pairs[i].0@ != pairs[j].0@
}

/// Whether the pair at `i` names the channel.
pub open spec fn names_channel(pairs: Seq<(String, SentMsg)>, i: int, channel: Seq<char>) -> bool {
    0 <= i < pairs.len() && pairs[i].0@ == channel
}

/// The map from each channel that a list of pairs names to its message.
pub open spec fn pairs_map(pairs: Seq<(String, SentMsg)>) -> Map<Seq<char>, SentMsg> {
    Map::new(
        |c: Seq<char>| exists|i: int| names_channel(pairs, i, c),
        |c: Seq<char>| pairs[choose|i: int| names_channel(pairs, i, c)].1,
    )
}

/// The messages sent about one proposal, at most one for each channel.
#[derive(Debug)]
pub struct Messages {
    entries: Vec<(String, SentMsg)>,
}

impl View for Messages {
    type V = Map<Seq<char>, SentMsg>;

    closed spec fn view(&self) -> Map<Seq<char>, SentMsg> {
        pairs_map(self.entries@)
    }
}

impl Messages {
    #[verifier::type_invariant]
    spec fn one_per_channel(self) -> bool {
        distinct_channels(self.entries@)
    }

    /// No messages.
    pub fn new() -> (r: Self)
        ensures
            r@ == Map::<Seq<char>, SentMsg>::empty(),
    {
        let r = Messages { entries: Vec::new() };
        assert(r@ =~= Map::<Seq<char>, SentMsg>::empty());
        r
    }

    /// Position of the channel's entry, where it has one.
    fn position(&self, channel: &str) -> (r: Option<usize>)
        ensures
            match r {
                Some(i) => names_channel(self.entries@, i as int, channel@),
                None => forall|i: int| !names_channel(self.entries@, i, channel@),
            },
    {
        let mut i: usize = 0;
        while i < self.entries.len()
            invariant
                i <= self.entries.len(),
                forall|k: int| 0 <= k < i ==> !names_channel(self.entries@, k, channel@),
            decreases self.entries.len() - i,
        {
            if same_text(self.entries[i].0.as_str(), channel) {
                return Some(i);
            }
            i += 1;
        }
        None
    }

    /// The message that the channel holds, where it holds one.
    pub fn get(&self, channel: &str) -> (r: Option<SentMsg>)
        ensures
            r == if self@.contains_key(channel@) {
                Some(self@[channel@])
            } else {
                None
            },
    {
        proof {
            use_type_invariant(self);
        }
        match self.position(channel) {
            Some(i) => Some(self.entries[i].1),
            None => None,
        }
    }

    /// Notes that the channel holds the message, in place of what was noted
    /// for that channel before.
    pub fn insert(&mut self, channel: &str, msg: SentMsg)
        ensures
            final(self)@ == old(self)@.insert(channel@, msg),
    {
        proof {
            use_type_invariant(&*self);
        }
        let ghost before = self.entries@;
        // The entries are taken out while they change and put back when each
        // channel is named once again.
        match self.position(channel) {
            Some(i) => {
                let mut entries: Vec<(String, SentMsg)> = Vec::new();
                core::mem::swap(&mut self.entries, &mut entries);
                entries.set(i, (channel.to_owned(), msg));
                core::mem::swap(&mut self.entries, &mut entries);
                proof {
                    let after = self.entries@;
                    assert forall|c: Seq<char>, k: int|
                        names_channel(after, k, c) <==> names_channel(before, k, c) by {}
                    assert forall|c: Seq<char>| #[trigger]
                        pairs_map(after).contains_key(c) && c != channel@ implies pairs_map(
                        after,
                    )[c] == pairs_map(before)[c] by {
                        let k = choose|k: int| names_channel(after, k, c);
                        assert(names_channel(before, k, c));
                    }
                    assert(names_channel(after, i as int, channel@));
                    assert(pairs_map(after) =~= pairs_map(before).insert(channel@, msg));
                }
            },
            None => {
                let mut entries: Vec<(String, SentMsg)> = Vec::new();
                core::mem::swap(&mut self.entries, &mut entries);
                entries.push((channel.to_owned(), msg));
                proof {
                    assert forall|a: int, b: int| 0 <= a < b < entries@.len() implies entries@[a].0@
                        != entries@[b].0@ by {
                        assert(!names_channel(before, a, channel@));
                    }
                }
                core::mem::swap(&mut self.entries, &mut entries);
                proof {
                    let after = self.entries@;
                    assert(names_channel(after, before.len() as int, channel@));
                    assert forall|c: Seq<char>| #[trigger]
                        pairs_map(before).contains_key(c) implies pairs_map(after).contains_key(c)
                        && pairs_map(after)[c] == pairs_map(before)[c] by {
                        let k = choose|k: int| names_channel(before, k, c);
                        assert(names_channel(after, k, c));
                    }
                    assert forall|c: Seq<char>| #[trigger]
                        pairs_map(after).contains_key(c) && c != channel@ implies pairs_map(
                        before,
                    ).contains_key(c) by {
                        let k = choose|k: int| names_channel(after, k, c);
                        assert(names_channel(before, k, c));
                    }
                    assert(pairs_map(after) =~= pairs_map(before).insert(channel@, msg));
                }
            },
        }
    }

    /// The channels with their messages, each channel once.
    pub fn entries(&self) -> (r: &Vec<(String, SentMsg)>)
        ensures
            distinct_channels(r@),
            pairs_map(r@) == self@,
    {
        proof {
            use_type_invariant(self);
        }
        &self.entries
    }
}

/// What is kept about one proposal: its summary when it was last seen, and
/// the messages sent about it.
#[derive(Debug)]
pub struct FCPStorage {
    pub info: FCPInfo,
    pub messages: Messages,
}

} // verus!
