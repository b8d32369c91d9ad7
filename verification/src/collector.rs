//! The paginated collection loop: walking a reverse-chronological message
//! feed page by page, filtering image attachments, enforcing a download
//! budget, and counting each source message at most once.
//!
//! The loop's decisions live here, fully verified. The outside work — the
//! page fetch and the byte-level persist — is driven by the caller, which
//! hands each fetched page to [`Collector::process_page`] and persists the
//! attachment URLs it returns, in order, halting when [`Collector`] says so.

use vstd::prelude::*;
use crate::strings::dec_str;
use crate::strings::u64_to_string;

verus! {

/// One attachment of a message: its source URL and, when the attachment is
/// an image, its width. Presence of a width is the sole image signal;
/// attachments without one are not downloaded.
pub struct Attachment {
    pub url: String,
    pub width: Option<u32>,
}

/// One message of the feed: its snowflake identifier — unique, and larger
/// for later messages — and its attachments in order.
pub struct Message {
    pub id: u64,
    pub attachments: Vec<Attachment>,
}

/// The download budget, as the loop carries it: either unbounded, or a
/// positive cap. The settings encode "unbounded" as a quantity of zero;
/// the loop keeps the two cases apart explicitly.
#[derive(PartialEq, Eq, Structural, Clone, Copy, Debug)]
pub enum Budget {
    Unbounded,
    AtMost(u32),
}

impl Budget {
    /// A bounded budget is positive; zero always means unbounded.
    pub open spec fn wf(self) -> bool {
        self matches Budget::AtMost(n) ==> n > 0
    }

    /// True once the given number of collected messages fills the budget.
    pub open spec fn met(self, count: nat) -> bool {
        match self {
            Budget::Unbounded => false,
            Budget::AtMost(n) => count >= n,
        }
    }
}

/// The budget encoded by a settings quantity: zero means unbounded.
pub open spec fn budget_of(quantity: u32) -> Budget {
    if quantity == 0 {
        Budget::Unbounded
    } else {
        Budget::AtMost(quantity)
    }
}

/// The URLs of the qualifying (width-present) attachments, in order.
pub open spec fn qual_urls_of(atts: Seq<Attachment>) -> Seq<Seq<char>>
    decreases atts.len(),
{
    if atts.len() == 0 {
        Seq::empty()
    } else {
        let head: Seq<Seq<char>> = if atts[0].width is Some {
            seq![atts[0].url@]
        } else {
            Seq::empty()
        };
        head + qual_urls_of(atts.drop_first())
    }
}

/// True when the message has at least one qualifying attachment, so that
/// processing it adds the message to the collected set.
pub open spec fn contributes(m: Message) -> bool {
    qual_urls_of(m.attachments@).len() > 0
}

/// The views of a vector of strings.
pub open spec fn views_of(urls: Seq<String>) -> Seq<Seq<char>> {
    urls.map_values(|u: String| u@)
}

/// Processing one page: the messages are visited in page order; before each
/// message the budget is checked — a bounded budget already met halts the
/// whole run — and a message that passes the check has all its qualifying
/// attachment URLs persisted and its identifier added to the collected set,
/// at most once. Returns the final collected set, the URLs to persist in
/// order, and whether the run halts on the budget — met either before a
/// message or once the page is exhausted, so that no further page is
/// requested after the budget fills.
pub open spec fn page_spec(msgs: Seq<Message>, collected: Seq<u64>, budget: Budget) -> (
    Seq<u64>,
    Seq<Seq<char>>,
    bool,
)
    decreases msgs.len(),
{
    if msgs.len() == 0 {
        (collected, Seq::<Seq<char>>::empty(), budget.met(collected.len()))
    } else if budget.met(collected.len()) {
        (collected, Seq::<Seq<char>>::empty(), true)
    } else {
        let m = msgs[0];
        let c2 = if contributes(m) && !collected.contains(m.id) {
            collected.push(m.id)
        } else {
            collected
        };
        let rest = page_spec(msgs.drop_first(), c2, budget);
        (rest.0, qual_urls_of(m.attachments@) + rest.1, rest.2)
    }
}

/// A whole run over the pages the feed yields, in fetch order: an empty
/// page ends the run by exhaustion, and a page that meets the budget ends
/// it with the halt flag set. Returns the final collected set and whether
/// the run was halted by the budget.
pub open spec fn run_spec(pages: Seq<Seq<Message>>, collected: Seq<u64>, budget: Budget) -> (
    Seq<u64>,
    bool,
)
    decreases pages.len(),
{
    if pages.len() == 0 {
        (collected, false)
    } else if pages[0].len() == 0 {
        (collected, false)
    } else {
        let r = page_spec(pages[0], collected, budget);
        if r.2 {
            (r.0, true)
        } else {
            run_spec(pages.drop_first(), r.0, budget)
        }
    }
}

/// The state the loop owns: the budget, the moving cursor, the set of
/// message identifiers collected so far, and whether the run is over.
pub struct Collector {
    /// How many messages may still be collected at most, if bounded.
    pub budget: Budget,
    /// The `after` watermark: only messages with a strictly greater
    /// identifier are requested on the next page.
    pub cursor: u64,
    /// Identifiers of the messages that contributed at least one persisted
    /// attachment, each at most once.
    pub collected: Vec<u64>,
    /// True once the run ended, by exhaustion or by the budget.
    pub done: bool,
}

impl Collector {
    /// The budget is well-formed, the collected set holds no duplicates,
    /// and a bounded budget is never exceeded.
    pub open spec fn wf(self) -> bool {
        &&& self.budget.wf()
        &&& self.collected@.no_duplicates()
        &&& self.budget matches Budget::AtMost(n) ==> self.collected@.len() <= n
    }

    /// Starts a run: the cursor at the caller's start boundary, nothing
    /// collected, the run not yet over. The quantity is the settings'
    /// encoding of the budget, zero meaning unbounded.
    pub fn new(start_boundary: u64, quantity: u32) -> (r: Collector)
        ensures
            r.wf(),
            r.cursor == start_boundary,
            r.budget == budget_of(quantity),
            r.collected@ == Seq::<u64>::empty(),
            !r.done,
    {
        let budget = if quantity == 0 {
            Budget::Unbounded
        } else {
            Budget::AtMost(quantity)
        };
        let r = Collector { budget, cursor: start_boundary, collected: Vec::new(), done: false };
        proof {
            assert(r.collected@ =~= Seq::<u64>::empty());
        }
        r
    }

    /// The number of distinct messages collected so far.
    pub fn collected_count(&self) -> (r: usize)
        ensures
            r == self.collected@.len(),
    {
        self.collected.len()
    }

    /// Tells whether the collected count has filled the budget.
    fn budget_met(&self) -> (r: bool)
        ensures
            r == self.budget.met(self.collected@.len()),
    {
        match self.budget {
            Budget::Unbounded => false,
            Budget::AtMost(n) => self.collected.len() >= n as usize,
        }
    }

    /// Consumes one fetched page. An empty page ends the run with nothing
    /// persisted and the cursor unchanged. A non-empty page advances the
    /// cursor to its first (newest) entry and is processed as [`page_spec`]
    /// says: the returned URLs are to be persisted in order, and `done`
    /// reports whether the budget halted the run.
    pub fn process_page(&mut self, page: &Vec<Message>) -> (urls: Vec<String>)
        requires
            old(self).wf(),
            !old(self).done,
        ensures
            final(self).wf(),
            final(self).budget == old(self).budget,
            page@.len() == 0 ==> final(self).done && final(self).collected@ == old(
                self,
            ).collected@ && final(self).cursor == old(self).cursor && urls@.len() == 0,
            page@.len() > 0 ==> {
                let r = page_spec(page@, old(self).collected@, old(self).budget);
                &&& final(self).cursor == page@[0].id
                &&& final(self).collected@ == r.0
                &&& views_of(urls@) == r.1
                &&& final(self).done == r.2
            },
    {
        let mut urls: Vec<String> = Vec::new();
        if page.len() == 0 {
            self.done = true;
            return urls;
        }
        self.cursor = page[0].id;
        let ghost c0 = self.collected@;
        let ghost b = self.budget;
        proof {
            assert(page@.skip(0) =~= page@);
            assert(views_of(urls@) =~= Seq::<Seq<char>>::empty());
        }
        let mut i: usize = 0;
        while i < page.len() && !self.budget_met()
            invariant
                0 <= i <= page@.len(),
                self.budget == b,
                self.done == false,
                self.cursor == page@[0].id,
                self.collected@.no_duplicates(),
                b matches Budget::AtMost(n) ==> self.collected@.len() <= n,
                page_spec(page@, c0, b) == ({
                    let rest = page_spec(page@.skip(i as int), self.collected@, b);
                    (rest.0, views_of(urls@) + rest.1, rest.2)
                }),
            decreases page@.len() - i,
        {
            let ghost before = self.collected@;
            let ghost urls0 = views_of(urls@);
            let ghost m = page@[i as int];
            proof {
                assert(page@.skip(i as int)[0] == m);
                assert(page@.skip(i as int).drop_first() =~= page@.skip(i + 1));
            }
            let msg = &page[i];
            let atts = &msg.attachments;
            let mut any = false;
            let mut j: usize = 0;
            proof {
                assert(atts@.skip(0) =~= atts@);
            }
            while j < atts.len()
                invariant
                    0 <= j <= atts@.len(),
                    atts@ == m.attachments@,
                    views_of(urls@) + qual_urls_of(atts@.skip(j as int)) == urls0 + qual_urls_of(
                        atts@,
                    ),
                    views_of(urls@).len() >= urls0.len(),
                    any <==> views_of(urls@).len() > urls0.len(),
                decreases atts@.len() - j,
            {
                let ghost tail = atts@.skip(j as int);
                proof {
                    assert(tail[0] == atts@[j as int]);
                    assert(tail.drop_first() =~= atts@.skip(j + 1));
                }
                if atts[j].width.is_some() {
                    let ghost u0 = views_of(urls@);
                    urls.push(atts[j].url.clone());
                    proof {
                        assert(views_of(urls@) =~= u0 + seq![atts@[j as int].url@]);
                        assert(qual_urls_of(tail) =~= seq![atts@[j as int].url@]
                            + qual_urls_of(atts@.skip(j + 1)));
                        assert(views_of(urls@) + qual_urls_of(atts@.skip(j + 1)) =~= u0
                            + qual_urls_of(tail));
                        assert(u0 + qual_urls_of(tail) =~= urls0 + qual_urls_of(atts@));
                    }
                    any = true;
                } else {
                    proof {
                        assert(qual_urls_of(tail) =~= qual_urls_of(atts@.skip(j + 1)));
                    }
                }
                j += 1;
            }
            proof {
                assert(atts@.skip(atts@.len() as int) =~= Seq::<Attachment>::empty());
                assert(views_of(urls@) =~= urls0 + qual_urls_of(atts@));
                assert(any <==> contributes(m));
            }
            if any {
                let id = msg.id;
                if !contains_id(&self.collected, id) {
                    self.collected.push(id);
                    proof {
                        assert forall|a: int, b: int|
                            0 <= a < self.collected@.len() && 0 <= b < self.collected@.len() && a
                                != b implies self.collected@[a] != self.collected@[b] by {
                            if a == self.collected@.len() - 1 && b < before.len() {
                                assert(before.contains(before[b]));
                            } else if b == self.collected@.len() - 1 && a < before.len() {
                                assert(before.contains(before[a]));
                            }
                        }
                        assert(self.collected@.no_duplicates());
                    }
                }
            }
            proof {
                let c2 = if contributes(m) && !before.contains(m.id) {
                    before.push(m.id)
                } else {
                    before
                };
                assert(self.collected@ == c2);
                let rest1 = page_spec(page@.skip(i + 1), c2, b);
                assert(page_spec(page@.skip(i as int), before, b) == (
                    rest1.0,
                    qual_urls_of(m.attachments@) + rest1.1,
                    rest1.2,
                ));
                assert(urls0 + (qual_urls_of(m.attachments@) + rest1.1) =~= (urls0 + qual_urls_of(
                    m.attachments@,
                )) + rest1.1);
            }
            i += 1;
        }
        let halted = self.budget_met();
        self.done = halted;
        proof {
            if i < page@.len() {
                assert(page_spec(page@.skip(i as int), self.collected@, b) == (
                    self.collected@,
                    Seq::<Seq<char>>::empty(),
                    true,
                ));
            } else {
                assert(page@.skip(i as int) =~= Seq::<Message>::empty());
            }
            assert(views_of(urls@) + Seq::<Seq<char>>::empty() =~= views_of(urls@));
        }
        urls
    }
}

/// True when the identifier was already collected.
fn contains_id(ids: &Vec<u64>, id: u64) -> (r: bool)
    ensures
        r == ids@.contains(id),
{
    let mut i: usize = 0;
    while i < ids.len()
        invariant
            0 <= i <= ids@.len(),
            forall|j: int| 0 <= j < i ==> ids@[j] != id,
        decreases ids@.len() - i,
    {
        if ids[i] == id {
            return true;
        }
        i += 1;
    }
    false
}

/// Membership in a pushed sequence: the pushed element, or an old one.
proof fn lemma_contains_push(s: Seq<u64>, x: u64, y: u64)
    ensures
        s.push(x).contains(y) <==> (s.contains(y) || x == y),
{
    if s.contains(y) {
        let k = choose|k: int| 0 <= k < s.len() && s[k] == y;
        assert(s.push(x)[k] == y);
    }
    if x == y {
        assert(s.push(x)[s.len() as int] == y);
    }
    if s.push(x).contains(y) && x != y {
        let k = choose|k: int| 0 <= k < s.push(x).len() && s.push(x)[k] == y;
        if k < s.len() {
            assert(s[k] == y);
        }
    }
}

/// Pushing a fresh element keeps a sequence duplicate-free.
proof fn lemma_push_no_duplicates(s: Seq<u64>, x: u64)
    requires
        s.no_duplicates(),
        !s.contains(x),
    ensures
        s.push(x).no_duplicates(),
{
    let t = s.push(x);
    assert forall|a: int, b: int|
        0 <= a < t.len() && 0 <= b < t.len() && a != b implies t[a] != t[b] by {
        if a == t.len() - 1 && b < s.len() {
            assert(s.contains(s[b]));
        } else if b == t.len() - 1 && a < s.len() {
            assert(s.contains(s[a]));
        }
    }
}

/// Processing a page preserves well-formedness: the collected set stays
/// duplicate-free, and a non-zero budget is never exceeded.
pub proof fn lemma_page_spec_preserves_wf(msgs: Seq<Message>, collected: Seq<u64>, budget: Budget)
    requires
        collected.no_duplicates(),
        budget matches Budget::AtMost(n) ==> collected.len() <= n,
    ensures
        page_spec(msgs, collected, budget).0.no_duplicates(),
        budget matches Budget::AtMost(n) ==> page_spec(msgs, collected, budget).0.len() <= n,
    decreases msgs.len(),
{
    if msgs.len() == 0 {
    } else if budget.met(collected.len()) {
    } else {
        let m = msgs[0];
        let c2 = if contributes(m) && !collected.contains(m.id) {
            collected.push(m.id)
        } else {
            collected
        };
        if contributes(m) && !collected.contains(m.id) {
            lemma_push_no_duplicates(collected, m.id);
        }
        lemma_page_spec_preserves_wf(msgs.drop_first(), c2, budget);
    }
}

/// An identifier once collected stays collected through a page.
pub proof fn lemma_page_spec_monotone(
    msgs: Seq<Message>,
    collected: Seq<u64>,
    budget: Budget,
    id: u64,
)
    requires
        collected.contains(id),
    ensures
        page_spec(msgs, collected, budget).0.contains(id),
    decreases msgs.len(),
{
    if msgs.len() == 0 {
    } else if budget.met(collected.len()) {
    } else {
        let m = msgs[0];
        let c2 = if contributes(m) && !collected.contains(m.id) {
            collected.push(m.id)
        } else {
            collected
        };
        if contributes(m) && !collected.contains(m.id) {
            lemma_contains_push(collected, m.id, id);
        }
        lemma_page_spec_monotone(msgs.drop_first(), c2, budget, id);
    }
}

/// With an unbounded budget a page never halts the run.
pub proof fn lemma_unbounded_page_never_halts(msgs: Seq<Message>, collected: Seq<u64>)
    ensures
        !page_spec(msgs, collected, Budget::Unbounded).2,
    decreases msgs.len(),
{
    if msgs.len() > 0 {
        let m = msgs[0];
        let c2 = if contributes(m) && !collected.contains(m.id) {
            collected.push(m.id)
        } else {
            collected
        };
        lemma_unbounded_page_never_halts(msgs.drop_first(), c2);
    }
}

/// With an unbounded budget a run is never halted by the budget: it ends
/// only when a fetched page is empty, or when the modeled feed runs out.
pub proof fn lemma_unbounded_run_never_budget_halted(pages: Seq<Seq<Message>>, collected: Seq<u64>)
    ensures
        !run_spec(pages, collected, Budget::Unbounded).1,
    decreases pages.len(),
{
    if pages.len() > 0 && pages[0].len() > 0 {
        lemma_unbounded_page_never_halts(pages[0], collected);
        lemma_unbounded_run_never_budget_halted(
            pages.drop_first(),
            page_spec(pages[0], collected, Budget::Unbounded).0,
        );
    }
}

/// Across a whole run with a bounded budget, the collected set stays
/// duplicate-free and its final size never exceeds the budget.
pub proof fn lemma_run_spec_preserves_wf(pages: Seq<Seq<Message>>, collected: Seq<u64>, budget: Budget)
    requires
        collected.no_duplicates(),
        budget matches Budget::AtMost(n) ==> collected.len() <= n,
    ensures
        run_spec(pages, collected, budget).0.no_duplicates(),
        budget matches Budget::AtMost(n) ==> run_spec(pages, collected, budget).0.len() <= n,
    decreases pages.len(),
{
    if pages.len() == 0 || pages[0].len() == 0 {
    } else {
        lemma_page_spec_preserves_wf(pages[0], collected, budget);
        let r = page_spec(pages[0], collected, budget);
        if !r.2 {
            lemma_run_spec_preserves_wf(pages.drop_first(), r.0, budget);
        }
    }
}

/// An identifier once collected stays collected through a whole run.
pub proof fn lemma_run_spec_monotone(
    pages: Seq<Seq<Message>>,
    collected: Seq<u64>,
    budget: Budget,
    id: u64,
)
    requires
        collected.contains(id),
    ensures
        run_spec(pages, collected, budget).0.contains(id),
    decreases pages.len(),
{
    if pages.len() == 0 || pages[0].len() == 0 {
    } else {
        lemma_page_spec_monotone(pages[0], collected, budget, id);
        let r = page_spec(pages[0], collected, budget);
        if !r.2 {
            lemma_run_spec_monotone(pages.drop_first(), r.0, budget, id);
        }
    }
}

/// A message whose every occurrence on a page has no qualifying attachment
/// never enters the collected set on that page.
pub proof fn lemma_zero_qualifying_never_collected(
    msgs: Seq<Message>,
    collected: Seq<u64>,
    budget: Budget,
    id: u64,
)
    requires
        !collected.contains(id),
        forall|j: int|
            0 <= j < msgs.len() && (#[trigger] msgs[j]).id == id ==> !contributes(msgs[j]),
    ensures
        !page_spec(msgs, collected, budget).0.contains(id),
    decreases msgs.len(),
{
    if msgs.len() == 0 {
    } else if budget.met(collected.len()) {
    } else {
        let m = msgs[0];
        let c2 = if contributes(m) && !collected.contains(m.id) {
            collected.push(m.id)
        } else {
            collected
        };
        if contributes(m) && !collected.contains(m.id) {
            lemma_contains_push(collected, m.id, id);
        }
        assert(!c2.contains(id));
        assert forall|j: int|
            0 <= j < msgs.drop_first().len() && (#[trigger] msgs.drop_first()[j]).id == id
            implies !contributes(msgs.drop_first()[j]) by {
            assert(msgs.drop_first()[j] == msgs[j + 1]);
        }
        lemma_zero_qualifying_never_collected(msgs.drop_first(), c2, budget, id);
    }
}

/// A message whose every occurrence across the whole feed has no qualifying
/// attachment never enters the collected set during a run.
pub proof fn lemma_zero_qualifying_never_collected_run(
    pages: Seq<Seq<Message>>,
    collected: Seq<u64>,
    budget: Budget,
    id: u64,
)
    requires
        !collected.contains(id),
        forall|p: int, j: int|
            0 <= p < pages.len() && 0 <= j < pages[p].len() && (#[trigger] pages[p][j]).id == id
                ==> !contributes(pages[p][j]),
    ensures
        !run_spec(pages, collected, budget).0.contains(id),
    decreases pages.len(),
{
    if pages.len() == 0 || pages[0].len() == 0 {
    } else {
        assert forall|j: int|
            0 <= j < pages[0].len() && (#[trigger] pages[0][j]).id == id implies !contributes(
            pages[0][j],
        ) by {
            assert(pages[0int][j] == pages[0][j]);
        }
        lemma_zero_qualifying_never_collected(pages[0], collected, budget, id);
        let r = page_spec(pages[0], collected, budget);
        if !r.2 {
            assert forall|p: int, j: int|
                0 <= p < pages.drop_first().len() && 0 <= j < pages.drop_first()[p].len() && (
            #[trigger] pages.drop_first()[p][j]).id == id implies !contributes(
                pages.drop_first()[p][j],
            ) by {
                assert(pages.drop_first()[p] == pages[p + 1]);
            }
            lemma_zero_qualifying_never_collected_run(pages.drop_first(), r.0, budget, id);
        }
    }
}

/// A message with at least one qualifying attachment, reached before the
/// budget is met, ends the page in the collected set exactly once, however
/// many qualifying attachments it holds.
pub proof fn lemma_contributing_message_collected_once(
    msgs: Seq<Message>,
    collected: Seq<u64>,
    budget: Budget,
    j: int,
)
    requires
        collected.no_duplicates(),
        budget matches Budget::AtMost(n) ==> collected.len() <= n,
        0 <= j < msgs.len(),
        contributes(msgs[j]),
        budget matches Budget::AtMost(n) ==> collected.len() + j < n,
    ensures
        page_spec(msgs, collected, budget).0.contains(msgs[j].id),
        page_spec(msgs, collected, budget).0.to_multiset().count(msgs[j].id) == 1,
    decreases j,
{
    let m = msgs[0];
    let c2 = if contributes(m) && !collected.contains(m.id) {
        collected.push(m.id)
    } else {
        collected
    };
    if contributes(m) && !collected.contains(m.id) {
        lemma_push_no_duplicates(collected, m.id);
    }
    if j == 0 {
        if !collected.contains(m.id) {
            lemma_contains_push(collected, m.id, m.id);
        }
        assert(c2.contains(m.id));
        lemma_page_spec_monotone(msgs.drop_first(), c2, budget, m.id);
    } else {
        assert(msgs.drop_first()[j - 1] == msgs[j]);
        lemma_contributing_message_collected_once(msgs.drop_first(), c2, budget, j - 1);
    }
    let r0 = page_spec(msgs, collected, budget).0;
    lemma_page_spec_preserves_wf(msgs, collected, budget);
    r0.to_multiset_ensures();
    r0.lemma_multiset_has_no_duplicates();
}

/// An identifier that enters the collected set stands in it exactly once at
/// the end of the whole run, however often its message was seen again.
pub proof fn lemma_run_collected_exactly_once(
    pages: Seq<Seq<Message>>,
    collected: Seq<u64>,
    budget: Budget,
    id: u64,
)
    requires
        collected.no_duplicates(),
        budget matches Budget::AtMost(n) ==> collected.len() <= n,
        collected.contains(id),
    ensures
        run_spec(pages, collected, budget).0.to_multiset().count(id) == 1,
{
    lemma_run_spec_monotone(pages, collected, budget, id);
    lemma_run_spec_preserves_wf(pages, collected, budget);
    let r0 = run_spec(pages, collected, budget).0;
    r0.to_multiset_ensures();
    r0.lemma_multiset_has_no_duplicates();
}

/// A message contributes exactly when one of its attachments has a width.
pub proof fn lemma_contributes_characterization(atts: Seq<Attachment>)
    ensures
        qual_urls_of(atts).len() > 0 <==> exists|j: int|
            0 <= j < atts.len() && (#[trigger] atts[j]).width is Some,
    decreases atts.len(),
{
    if atts.len() > 0 {
        lemma_contributes_characterization(atts.drop_first());
        if atts[0].width is Some {
        } else {
            assert forall|j: int|
                0 <= j < atts.len() && (#[trigger] atts[j]).width is Some implies qual_urls_of(
                atts,
            ).len() > 0 by {
                assert(atts.drop_first()[j - 1] == atts[j]);
            }
            if qual_urls_of(atts).len() > 0 {
                let k = choose|k: int|
                    0 <= k < atts.drop_first().len() && (#[trigger] atts.drop_first()[k]).width
                        is Some;
                assert(atts[k + 1].width is Some);
            }
        }
    }
}

/// Cursor monotonicity: under the feed's `after` semantics — every message
/// of a fetched page has an identifier strictly above the cursor the page
/// was requested with — advancing the cursor to a non-empty page's first
/// (newest) entry strictly increases it.
pub proof fn lemma_cursor_strictly_increases(cursor: u64, page: Seq<Message>)
    requires
        page.len() > 0,
        forall|j: int| 0 <= j < page.len() ==> (#[trigger] page[j]).id > cursor,
    ensures
        page[0].id > cursor,
{
}

/// The final report: "zero found", noting a time range when one was set,
/// or the count found with singular or plural phrasing.
pub open spec fn summary_spec(count: nat, start_boundary: u64) -> Seq<char> {
    if count == 0 {
        if start_boundary == 0 {
            "The channel doesn't contain any images!"@
        } else {
            "The channel doesn't contain any images in the selected time range!"@
        }
    } else {
        "Successfully saved "@ + dec_str(count) + (if count == 1 {
            " image!"@
        } else {
            " images!"@
        })
    }
}

/// Renders the run's human-readable summary from the number of collected
/// messages and the start boundary that was applied (zero meaning none).
pub fn summary(count: usize, start_boundary: u64) -> (r: String)
    ensures
        r@ == summary_spec(count as nat, start_boundary),
{
    if count == 0 {
        if start_boundary == 0 {
            String::from_str("The channel doesn't contain any images!")
        } else {
            String::from_str("The channel doesn't contain any images in the selected time range!")
        }
    } else {
        let mut s = String::from_str("Successfully saved ");
        let digits = u64_to_string(count as u64);
        s.append(digits.as_str());
        if count == 1 {
            s.append(" image!");
        } else {
            s.append(" images!");
        }
        s
    }
}

} // verus!
