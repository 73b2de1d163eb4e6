//! The chain monitor: it compares the best block of the chain source with
//! the last block that the tower has seen, and says which blocks are to be
//! taken away and which are to be applied, in which order.
//!
//! The monitor reads nothing itself. It asks for the headers it needs, one
//! step at a time, and is handed them.

use crate::ids::BlockHash;
use crate::model::{lemma_views_push, views};
use vstd::prelude::*;

verus! {

/// What the monitor reads of a block header.
#[derive(Debug, Clone, Copy)]
pub struct Header {
    pub hash: BlockHash,
    pub prev_hash: BlockHash,
    pub height: u32,
}

/// A header as a mathematical value.
pub struct HeaderView {
    pub hash: Seq<u8>,
    pub prev_hash: Seq<u8>,
    pub height: u32,
}

impl View for Header {
    type V = HeaderView;

    open spec fn view(&self) -> HeaderView {
        HeaderView { hash: self.hash@, prev_hash: self.prev_hash@, height: self.height }
    }
}

/// Whether `parent` is the header before `child`.
pub open spec fn links(child: HeaderView, parent: HeaderView) -> bool {
    child.prev_hash == parent.hash && child.height == parent.height + 1
}

/// Whether each header of a list is followed by the header before it.
pub open spec fn is_branch(path: Seq<HeaderView>) -> bool {
    forall|i: int| 0 <= i < path.len() - 1 ==> links(#[trigger] path[i], path[i + 1])
}

/// Along a branch the height falls by one with every header.
pub proof fn lemma_branch_heights(path: Seq<HeaderView>, i: int)
    requires
        is_branch(path),
        0 <= i < path.len(),
    ensures
        path[i].height + i == path[0].height,
    decreases i,
{
    if i > 0 {
        lemma_branch_heights(path, i - 1);
        assert(links(path[i - 1], path[i - 1 + 1]));
    }
}

/// An event for the tower's listeners.
#[derive(Debug, Clone, Copy)]
pub enum ChainEvent {
    /// The block of this header was added to the chain.
    Connected(Header),
    /// The block of this header was taken away from the chain.
    Disconnected(Header),
}

/// An event as a mathematical value.
pub enum ChainEventView {
    Connected(HeaderView),
    Disconnected(HeaderView),
}

impl View for ChainEvent {
    type V = ChainEventView;

    open spec fn view(&self) -> ChainEventView {
        match self {
            ChainEvent::Connected(header) => ChainEventView::Connected(header@),
            ChainEvent::Disconnected(header) => ChainEventView::Disconnected(header@),
        }
    }
}

/// Which header a walk needs next.
#[derive(Debug, Clone, Copy, PartialEq, Eq, Structural)]
pub enum WalkNeed {
    /// None: the two branches have met.
    Nothing,
    /// The header before the lowest header of the new branch.
    PreviousOfNew,
    /// The header before the lowest header of the old branch.
    PreviousOfOld,
    /// Both of them.
    PreviousOfBoth,
}

/// Why a walk cannot go on.
#[derive(Debug, Clone, Copy, PartialEq, Eq, Structural)]
pub enum ChainError {
    /// A header that the walk needs was not handed in.
    MissingHeader,
    /// A header handed in is not the one before the header it was asked
    /// for.
    NotLinked,
}

/// A walk as a mathematical value.
pub struct WalkView {
    /// The last block that the tower has seen.
    pub tip: HeaderView,
    /// The best block of the chain source.
    pub best: HeaderView,
    /// The lowest header of the old branch that the walk has reached.
    pub old: HeaderView,
    /// The lowest header of the new branch that the walk has reached.
    pub new: HeaderView,
    /// The headers of the old branch above `old`, highest first.
    pub disconnected: Seq<HeaderView>,
    /// The headers of the new branch above `new`, highest first.
    pub connected: Seq<HeaderView>,
}

impl WalkView {
    /// What holds of every walk: the headers passed on either side and the
    /// header reached are a branch that starts at the tip, or at the best
    /// block.
    pub open spec fn wf(self) -> bool {
        &&& is_branch(self.disconnected.push(self.old))
        &&& self.disconnected.push(self.old)[0] == self.tip
        &&& is_branch(self.connected.push(self.new))
        &&& self.connected.push(self.new)[0] == self.best
    }

    /// The walk that starts at a tip and a best block.
    pub open spec fn start(tip: HeaderView, best: HeaderView) -> WalkView {
        WalkView {
            tip,
            best,
            old: tip,
            new: best,
            disconnected: Seq::empty(),
            connected: Seq::empty(),
        }
    }

    /// Which header the walk needs next: none once both sides have reached
    /// the same block, else the one before the higher side, or before both
    /// where they are equally high.
    pub open spec fn need(self) -> WalkNeed {
        if self.old.hash == self.new.hash {
            WalkNeed::Nothing
        } else if self.new.height > self.old.height {
            WalkNeed::PreviousOfNew
        } else if self.new.height < self.old.height {
            WalkNeed::PreviousOfOld
        } else {
            WalkNeed::PreviousOfBoth
        }
    }

    /// Whether the walk steps down on the new side.
    pub open spec fn steps_new(self) -> bool {
        self.need() is PreviousOfNew || self.need() is PreviousOfBoth
    }

    /// Whether the walk steps down on the old side.
    pub open spec fn steps_old(self) -> bool {
        self.need() is PreviousOfOld || self.need() is PreviousOfBoth
    }

    /// Why the walk cannot take the headers handed in, if it cannot.
    pub open spec fn refusal(
        self,
        before_new: Option<HeaderView>,
        before_old: Option<HeaderView>,
    ) -> Option<ChainError> {
        if (self.steps_new() && before_new is None) || (self.steps_old() && before_old is None) {
            Some(ChainError::MissingHeader)
        } else if (self.steps_new() && !links(self.new, before_new.unwrap())) || (self.steps_old()
            && !links(self.old, before_old.unwrap())) {
            Some(ChainError::NotLinked)
        } else {
            None
        }
    }

    /// The walk one step further: on each side that steps, the header
    /// reached is passed and the one handed in is reached. Nothing changes
    /// where the walk needs nothing or cannot take what is handed in.
    pub open spec fn advanced(
        self,
        before_new: Option<HeaderView>,
        before_old: Option<HeaderView>,
    ) -> WalkView {
        if self.refusal(before_new, before_old) is Some {
            self
        } else {
            WalkView {
                old: if self.steps_old() {
                    before_old.unwrap()
                } else {
                    self.old
                },
                new: if self.steps_new() {
                    before_new.unwrap()
                } else {
                    self.new
                },
                disconnected: if self.steps_old() {
                    self.disconnected.push(self.old)
                } else {
                    self.disconnected
                },
                connected: if self.steps_new() {
                    self.connected.push(self.new)
                } else {
                    self.connected
                },
                ..self
            }
        }
    }

    /// The events of a finished walk: the blocks of the old branch are
    /// taken away, highest first, then the blocks of the new branch are
    /// applied, lowest first.
    pub open spec fn events(self) -> Seq<ChainEventView> {
        self.disconnected.map_values(|header: HeaderView| ChainEventView::Disconnected(header))
            + self.connected.reverse().map_values(
            |header: HeaderView| ChainEventView::Connected(header),
        )
    }
}

/// A step leaves a walk well formed.
pub proof fn lemma_advanced_wf(
    walk: WalkView,
    before_new: Option<HeaderView>,
    before_old: Option<HeaderView>,
)
    requires
        walk.wf(),
    ensures
        walk.advanced(before_new, before_old).wf(),
{
    let after = walk.advanced(before_new, before_old);
    if walk.refusal(before_new, before_old) is None {
        if walk.steps_old() {
            let path = walk.disconnected.push(walk.old);
            let next = after.disconnected.push(after.old);
            assert forall|i: int| 0 <= i < next.len() - 1 implies links(
                #[trigger] next[i],
                next[i + 1],
            ) by {
                if i < path.len() - 1 {
                    assert(links(path[i], path[i + 1]));
                }
            }
            assert(next[0] == path[0]);
        }
        if walk.steps_new() {
            let path = walk.connected.push(walk.new);
            let next = after.connected.push(after.new);
            assert forall|i: int| 0 <= i < next.len() - 1 implies links(
                #[trigger] next[i],
                next[i + 1],
            ) by {
                if i < path.len() - 1 {
                    assert(links(path[i], path[i + 1]));
                }
            }
            assert(next[0] == path[0]);
        }
    }
}

/// Every step that a walk takes brings the two sides nearer to the ground:
/// a walk ends after no more steps than the two heights it starts from.
pub proof fn law_walk_descends(
    walk: WalkView,
    before_new: Option<HeaderView>,
    before_old: Option<HeaderView>,
)
    requires
        !(walk.need() is Nothing),
        walk.refusal(before_new, before_old) is None,
    ensures
        walk.advanced(before_new, before_old).old.height + walk.advanced(
            before_new,
            before_old,
        ).new.height < walk.old.height + walk.new.height,
{
}

/// In the events of a walk, the blocks taken away come first, from the tip
/// downwards without a gap, and the blocks applied come after them, upwards
/// without a gap to the best block.
pub proof fn law_events_ordered(walk: WalkView, i: int)
    requires
        walk.wf(),
        0 <= i < walk.events().len(),
    ensures
        walk.events().len() == walk.disconnected.len() + walk.connected.len(),
        i < walk.disconnected.len() ==> walk.events()[i] == ChainEventView::Disconnected(
            walk.disconnected[i],
        ) && walk.disconnected[i].height + i == walk.tip.height,
        i >= walk.disconnected.len() ==> walk.events()[i] == ChainEventView::Connected(
            walk.connected[walk.events().len() - 1 - i],
        ) && walk.connected[walk.events().len() - 1 - i].height + (walk.events().len() - 1 - i)
            == walk.best.height,
{
    if i < walk.disconnected.len() {
        lemma_branch_heights(walk.disconnected.push(walk.old), i);
    } else {
        let k = walk.events().len() - 1 - i;
        lemma_branch_heights(walk.connected.push(walk.new), k);
        assert(walk.connected.reverse()[i - walk.disconnected.len()] == walk.connected[k]);
    }
}

/// Where the best block is the tip, a walk needs nothing and has no
/// events.
pub proof fn law_unchanged_tip(tip: HeaderView)
    ensures
        WalkView::start(tip, tip).need() is Nothing,
        WalkView::start(tip, tip).events().len() == 0,
{
}

/// Where the best block follows the tip, one step ends the walk, and its
/// one event applies the best block.
pub proof fn law_direct_extension(tip: HeaderView, best: HeaderView)
    requires
        links(best, tip),
        best.hash != tip.hash,
    ensures
        WalkView::start(tip, best).need() is PreviousOfNew,
        WalkView::start(tip, best).advanced(Some(tip), None).need() is Nothing,
        WalkView::start(tip, best).advanced(Some(tip), None).events() == seq![
            ChainEventView::Connected(best),
        ],
{
    let after = WalkView::start(tip, best).advanced(Some(tip), None);
    assert(after.connected =~= seq![best]);
    assert(after.events() =~= seq![ChainEventView::Connected(best)]);
}

/// A walk from the last block that the tower has seen and from the best
/// block of the chain source, down to the block where their branches
/// part.
#[derive(Debug)]
pub struct ChainWalk {
    tip: Header,
    best: Header,
    old: Header,
    new: Header,
    disconnected: Vec<Header>,
    connected: Vec<Header>,
}

impl View for ChainWalk {
    type V = WalkView;

    closed spec fn view(&self) -> WalkView {
        WalkView {
            tip: self.tip@,
            best: self.best@,
            old: self.old@,
            new: self.new@,
            disconnected: views(self.disconnected@),
            connected: views(self.connected@),
        }
    }
}

impl ChainWalk {
    /// The walk that starts at a tip and a best block.
    pub fn new(tip: Header, best: Header) -> (walk: Self)
        ensures
            walk@ == WalkView::start(tip@, best@),
            walk@.wf(),
    {
        let walk = ChainWalk {
            tip,
            best,
            old: tip,
            new: best,
            disconnected: Vec::new(),
            connected: Vec::new(),
        };
        assert(walk@.disconnected =~= Seq::empty());
        assert(walk@.connected =~= Seq::empty());
        walk
    }

    /// The best block that the walk started from.
    pub fn best(&self) -> (best: Header)
        ensures
            best@ == self@.best,
    {
        self.best
    }

    /// The header of which the one before is needed on the new side.
    pub fn lowest_new(&self) -> (header: Header)
        ensures
            header@ == self@.new,
    {
        self.new
    }

    /// The header of which the one before is needed on the old side.
    pub fn lowest_old(&self) -> (header: Header)
        ensures
            header@ == self@.old,
    {
        self.old
    }

    /// Which header the walk needs next.
    pub fn need(&self) -> (need: WalkNeed)
        ensures
            need == self@.need(),
    {
        if self.old.hash == self.new.hash {
            WalkNeed::Nothing
        } else if self.new.height > self.old.height {
            WalkNeed::PreviousOfNew
        } else if self.new.height < self.old.height {
            WalkNeed::PreviousOfOld
        } else {
            WalkNeed::PreviousOfBoth
        }
    }

    /// Whether `parent` is the header before `child`.
    fn is_before(child: &Header, parent: &Header) -> (r: bool)
        ensures
            r == links(child@, parent@),
    {
        child.prev_hash == parent.hash && parent.height < u32::MAX && child.height == parent.height
            + 1
    }

    /// Takes the walk one step further with the headers handed in: the one
    /// before the lowest header of the new side, the one before the lowest
    /// header of the old side, or both, as `need` says. A header that is not
    /// needed is not looked at.
    pub fn advance(&mut self, before_new: Option<Header>, before_old: Option<Header>) -> (r: Result<
        (),
        ChainError,
    >)
        requires
            old(self)@.wf(),
        ensures
            r matches Err(e) ==> old(self)@.refusal(header_view(before_new), header_view(before_old))
                == Some(e),
            r is Ok ==> old(self)@.refusal(header_view(before_new), header_view(before_old))
                is None,
            final(self)@ == old(self)@.advanced(header_view(before_new), header_view(before_old)),
            final(self)@.wf(),
    {
        let need = self.need();
        let steps_new = need == WalkNeed::PreviousOfNew || need == WalkNeed::PreviousOfBoth;
        let steps_old = need == WalkNeed::PreviousOfOld || need == WalkNeed::PreviousOfBoth;
        if (steps_new && before_new.is_none()) || (steps_old && before_old.is_none()) {
            return Err(ChainError::MissingHeader);
        }
        if steps_new {
            let parent = before_new.unwrap();
            if !Self::is_before(&self.new, &parent) {
                return Err(ChainError::NotLinked);
            }
        }
        if steps_old {
            let parent = before_old.unwrap();
            if !Self::is_before(&self.old, &parent) {
                return Err(ChainError::NotLinked);
            }
        }
        proof {
            lemma_advanced_wf(self@, header_view(before_new), header_view(before_old));
        }
        if steps_new {
            proof {
                lemma_views_push(self.connected@, self.new);
            }
            self.connected.push(self.new);
            self.new = before_new.unwrap();
        }
        if steps_old {
            proof {
                lemma_views_push(self.disconnected@, self.old);
            }
            self.disconnected.push(self.old);
            self.old = before_old.unwrap();
        }
        Ok(())
    }

    /// The events of the walk, once it needs nothing more: the blocks of
    /// the old branch are taken away, highest first, then the blocks of the
    /// new branch are applied, lowest first.
    pub fn events(&self) -> (r: Option<Vec<ChainEvent>>)
        ensures
            r matches Some(events) ==> views(events@) == self@.events(),
            r is None <==> !(self@.need() is Nothing),
    {
        if self.need() != WalkNeed::Nothing {
            return None;
        }
        let ghost gone = views(self.disconnected@);
        let ghost come = views(self.connected@);
        let mut events: Vec<ChainEvent> = Vec::new();
        let mut i: usize = 0;
        while i < self.disconnected.len()
            invariant
                i <= self.disconnected.len(),
                gone == views(self.disconnected@),
                events@.len() == i,
                forall|j: int|
                    0 <= j < i ==> (#[trigger] events@[j])@ == ChainEventView::Disconnected(
                        gone[j],
                    ),
            decreases self.disconnected.len() - i,
        {
            events.push(ChainEvent::Disconnected(self.disconnected[i]));
            i = i + 1;
        }
        let mut k: usize = self.connected.len();
        while k > 0
            invariant
                k <= self.connected.len(),
                gone == views(self.disconnected@),
                come == views(self.connected@),
                events@.len() == gone.len() + (come.len() - k),
                forall|j: int|
                    0 <= j < gone.len() ==> (#[trigger] events@[j])@
                        == ChainEventView::Disconnected(gone[j]),
                forall|j: int|
                    gone.len() <= j < events@.len() ==> (#[trigger] events@[j])@
                        == ChainEventView::Connected(come[come.len() - 1 - (j - gone.len())]),
            decreases k,
        {
            k = k - 1;
            events.push(ChainEvent::Connected(self.connected[k]));
        }
        assert(views(events@) =~= self@.events());
        Some(events)
    }
}

/// The headers handed to a walk as mathematical values.
pub open spec fn header_view(header: Option<Header>) -> Option<HeaderView> {
    match header {
        Some(h) => Some(h@),
        None => None,
    }
}

/// The events that bring a tower up to date at its start: the given
/// blocks, which come highest first, are applied lowest first.
pub open spec fn replayed(headers: Seq<HeaderView>) -> Seq<ChainEventView> {
    headers.reverse().map_values(|header: HeaderView| ChainEventView::Connected(header))
}

/// The monitor as a mathematical value.
pub struct MonitorView {
    /// The last block whose events the tower has taken.
    pub last_known_tip: HeaderView,
    /// Whether the chain source answered when it was last asked.
    pub reachable: bool,
}

/// What the tower knows of the chain: the last block it has seen, and
/// whether the chain source can be reached.
#[derive(Debug)]
pub struct ChainMonitor {
    last_known_tip: Header,
    reachable: bool,
}

impl View for ChainMonitor {
    type V = MonitorView;

    closed spec fn view(&self) -> MonitorView {
        MonitorView { last_known_tip: self.last_known_tip@, reachable: self.reachable }
    }
}

impl ChainMonitor {
    /// A monitor that has seen the given block and takes the chain source
    /// for reachable.
    pub fn new(tip: Header) -> (monitor: Self)
        ensures
            monitor@ == (MonitorView { last_known_tip: tip@, reachable: true }),
    {
        ChainMonitor { last_known_tip: tip, reachable: true }
    }

    /// The last block whose events the tower has taken.
    pub fn last_known_tip(&self) -> (tip: Header)
        ensures
            tip@ == self@.last_known_tip,
    {
        self.last_known_tip
    }

    /// Whether the chain source answered when it was last asked.
    pub fn is_reachable(&self) -> (reachable: bool)
        ensures
            reachable == self@.reachable,
    {
        self.reachable
    }

    /// Takes note of whether the chain source answered.
    pub fn set_reachable(&mut self, reachable: bool)
        ensures
            final(self)@ == (MonitorView { reachable, ..old(self)@ }),
    {
        self.reachable = reachable;
    }

    /// Starts a walk from the last known tip to the best block of the chain
    /// source.
    pub fn poll(&self, best: Header) -> (walk: ChainWalk)
        ensures
            walk@ == WalkView::start(self@.last_known_tip, best@),
            walk@.wf(),
    {
        ChainWalk::new(self.last_known_tip, best)
    }

    /// Moves the last known tip to the best block of a walk, once all the
    /// events of the walk were taken. Does nothing, and says so, unless the
    /// walk has ended and started from the last known tip.
    pub fn advance_tip(&mut self, walk: &ChainWalk) -> (moved: bool)
        ensures
            moved == (walk@.need() is Nothing && walk@.tip.hash == old(self)@.last_known_tip.hash),
            final(self)@ == if moved {
                MonitorView { last_known_tip: walk@.best, ..old(self)@ }
            } else {
                old(self)@
            },
    {
        if walk.need() == WalkNeed::Nothing && walk.tip.hash == self.last_known_tip.hash {
            self.last_known_tip = walk.best;
            true
        } else {
            false
        }
    }

    /// The events that bring a tower up to date at its start: the given
    /// blocks, which come highest first, are applied lowest first.
    pub fn replay(headers: &Vec<Header>) -> (events: Vec<ChainEvent>)
        ensures
            views(events@) == replayed(views(headers@)),
    {
        let ghost all = views(headers@);
        let mut events: Vec<ChainEvent> = Vec::new();
        let mut k: usize = headers.len();
        while k > 0
            invariant
                k <= headers.len(),
                all == views(headers@),
                events@.len() == all.len() - k,
                forall|j: int|
                    0 <= j < events@.len() ==> (#[trigger] events@[j])@
                        == ChainEventView::Connected(all[all.len() - 1 - j]),
            decreases k,
        {
            k = k - 1;
            events.push(ChainEvent::Connected(headers[k]));
        }
        assert(views(events@) =~= replayed(all));
        events
    }
}

} // verus!
