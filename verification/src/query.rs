//! Asking the operating system and the driver for what the list of interfaces is
//! made of.
use crate::interfaces::{self, Adapter, InterfaceView, NetworkInterface};
use crate::names;
use vstd::prelude::*;
use vstd::utf8::*;

verus! {

/// What the query is told.
pub enum QueryEvent {
    /// The operating system needs `adapters_size` bytes for the list of adapters.
    /// An entry of the list has `entry_size` bytes.
    Sized { adapters_size: u32, entry_size: u32 },
    /// The operating system answered with `error`, which may stand for success, and
    /// listed the adapters.
    Listed { error: u32, adapters: Vec<Adapter> },
    /// The driver has been asked for the device names and answered `ret`, where zero
    /// stands for failure. It states that the names need `len` bytes, and left this
    /// buffer.
    Named { ret: u8, len: u32, buffer: Vec<u8> },
}

/// What is to be done next.
#[derive(Debug, PartialEq, Eq)]
pub enum QueryAction {
    /// Make room for this many entries, ask for the adapters, and tell
    /// `QueryEvent::Listed`.
    List { slots: u32 },
    /// Ask the driver for the device names with a buffer of `len` bytes, and tell
    /// `QueryEvent::Named`.
    GetNames { len: u32 },
    /// Give up: the adapters cannot be listed, because of this error.
    NoAdapters { error: u32 },
    /// Give up: the driver does not even fill a buffer of the size that it asked for.
    NoNames,
    /// These are the interfaces.
    Answer { interfaces: Vec<NetworkInterface> },
}

/// How far the query has come.
#[derive(Clone, Copy, Debug, PartialEq, Eq, Structural)]
pub enum QueryStage {
    /// The size of the list of adapters is asked for.
    Sizing,
    /// The adapters are asked for.
    Listing,
    /// The device names are asked for.
    Naming,
    /// The device names are asked for again.
    NamingAgain,
    /// The query has ended.
    Ended,
}

/// What an action holds.
#[verifier::ext_equal]
pub enum QueryActionView {
    List { slots: u32 },
    GetNames { len: u32 },
    NoAdapters { error: u32 },
    NoNames,
    Answer { interfaces: Seq<InterfaceView> },
}

impl View for QueryAction {
    type V = QueryActionView;

    open spec fn view(&self) -> QueryActionView {
        match self {
            QueryAction::List { slots } => QueryActionView::List { slots: *slots },
            QueryAction::GetNames { len } => QueryActionView::GetNames { len: *len },
            QueryAction::NoAdapters { error } => QueryActionView::NoAdapters { error: *error },
            QueryAction::NoNames => QueryActionView::NoNames,
            QueryAction::Answer { interfaces } => QueryActionView::Answer {
                interfaces: interfaces::views(interfaces@),
            },
        }
    }
}

/// Whether the event can come now. Adapters that are listed have to be such that
/// they can be described, and device names have to be text.
pub open spec fn accepts(stage: QueryStage, event: QueryEvent) -> bool {
    match event {
        QueryEvent::Sized { adapters_size, entry_size } => stage is Sizing && entry_size > 0,
        QueryEvent::Listed { error, adapters } => {
            &&& stage is Listing
            &&& error == interfaces::NO_ERROR ==> forall|i: int|
                0 <= i < adapters@.len() ==> (#[trigger] adapters@[i]).wf()
        },
        QueryEvent::Named { ret, len, buffer } => {
            &&& stage is Naming || stage is NamingAgain
            &&& ret != 0 ==> valid_utf8(buffer@)
        },
    }
}

/// The stage after an event, the interfaces that are known then, and what is to be
/// done.
pub open spec fn query_step(
    stage: QueryStage,
    found: Seq<InterfaceView>,
    event: QueryEvent,
) -> (QueryStage, Seq<InterfaceView>, QueryActionView) {
    match event {
        QueryEvent::Sized { adapters_size, entry_size } => (
            QueryStage::Listing,
            found,
            QueryActionView::List {
                slots: interfaces::slots_for(adapters_size, entry_size) as u32,
            },
        ),
        QueryEvent::Listed { error, adapters } => if error != interfaces::NO_ERROR {
            (QueryStage::Ended, found, QueryActionView::NoAdapters { error })
        } else {
            (
                QueryStage::Naming,
                interfaces::all_described(adapters@),
                QueryActionView::GetNames { len: interfaces::NAMES_BUFFER },
            )
        },
        QueryEvent::Named { ret, len, buffer } => if ret != 0 {
            (
                QueryStage::Ended,
                found,
                QueryActionView::Answer {
                    interfaces: interfaces::supported(found, names::names_in(buffer@)),
                },
            )
        } else if stage is Naming {
            (QueryStage::NamingAgain, found, QueryActionView::GetNames { len })
        } else {
            (QueryStage::Ended, found, QueryActionView::NoNames)
        },
    }
}

/// A query for the network interfaces.
pub struct InterfaceQuery {
    stage: QueryStage,
    found: Vec<NetworkInterface>,
}

impl InterfaceQuery {
    /// How far the query has come.
    pub closed spec fn stage(&self) -> QueryStage {
        self.stage
    }

    /// The interfaces that are known.
    pub closed spec fn found(&self) -> Seq<InterfaceView> {
        interfaces::views(self.found@)
    }

    /// A query that begins by asking for the size of the list of adapters.
    pub fn new() -> (query: Self)
        ensures
            query.stage() == QueryStage::Sizing,
            query.found() == Seq::<InterfaceView>::empty(),
    {
        let query = InterfaceQuery { stage: QueryStage::Sizing, found: Vec::new() };
        assert(query.found() =~= Seq::<InterfaceView>::empty());
        query
    }

    /// Decides what comes next on the way to the list of interfaces.
    pub fn step(&mut self, event: QueryEvent) -> (action: QueryAction)
        requires
            accepts(old(self).stage(), event),
        ensures
            (final(self).stage(), final(self).found(), action@) == query_step(
                old(self).stage(),
                old(self).found(),
                event,
            ),
            event matches QueryEvent::Sized { adapters_size, entry_size } ==> {
                &&& final(self).stage() is Listing
                &&& action matches QueryAction::List { slots }
                &&& slots * entry_size >= adapters_size
                &&& slots * entry_size < adapters_size + entry_size
            },
            event matches QueryEvent::Listed { error, adapters } ==> error != 0 ==> {
                &&& final(self).stage() is Ended
                &&& action matches QueryAction::NoAdapters { error: reported }
                &&& reported == error
            },
            event matches QueryEvent::Listed { error, adapters } ==> error == 0 ==> {
                &&& final(self).stage() is Naming
                &&& action matches QueryAction::GetNames { len }
                &&& len == 4096
                &&& final(self).found().len() == adapters@.len()
                &&& forall|i: int|
                    0 <= i < adapters@.len() ==> #[trigger] final(self).found()[i]
                        == interfaces::described(adapters@[i])
            },
            event matches QueryEvent::Named { ret, len, buffer } ==> ret != 0 ==> {
                &&& final(self).stage() is Ended
                &&& action matches QueryAction::Answer { interfaces }
                &&& interfaces::views(interfaces@) == interfaces::supported(
                    old(self).found(),
                    names::names_in(buffer@),
                )
            },
            event matches QueryEvent::Named { ret, len, buffer } ==> ret == 0 ==> {
                &&& final(self).found() == old(self).found()
                &&& old(self).stage() is Naming ==> {
                    &&& final(self).stage() is NamingAgain
                    &&& action matches QueryAction::GetNames { len: wanted }
                    &&& wanted == len
                }
                &&& old(self).stage() is NamingAgain ==> {
                    &&& final(self).stage() is Ended
                    &&& action is NoNames
                }
            },
    {
        match event {
            QueryEvent::Sized { adapters_size, entry_size } => {
                self.stage = QueryStage::Listing;
                QueryAction::List { slots: interfaces::adapter_slots(adapters_size, entry_size) }
            },
            QueryEvent::Listed { error, adapters } => {
                if error != interfaces::NO_ERROR {
                    self.stage = QueryStage::Ended;
                    QueryAction::NoAdapters { error }
                } else {
                    self.stage = QueryStage::Naming;
                    self.found = interfaces::describe_all(&adapters);
                    QueryAction::GetNames { len: interfaces::NAMES_BUFFER }
                }
            },
            QueryEvent::Named { ret, len, buffer } => {
                if ret != 0 {
                    self.stage = QueryStage::Ended;
                    QueryAction::Answer {
                        interfaces: interfaces::supported_interfaces(
                            &self.found,
                            buffer.as_slice(),
                        ),
                    }
                } else {
                    match self.stage {
                        QueryStage::Naming => {
                            // The second call should work with the size that the driver
                            // asked for
                            self.stage = QueryStage::NamingAgain;
                            QueryAction::GetNames { len }
                        },
                        _ => {
                            self.stage = QueryStage::Ended;
                            QueryAction::NoNames
                        },
                    }
                }
            },
        }
    }
}

/// In each stage the answer to what was asked can come: an entry of the list has a
/// size, every adapter in it can be described, and the names are text.
pub proof fn answers_are_accepted(stage: QueryStage, event: QueryEvent)
    ensures
        event matches QueryEvent::Sized { adapters_size, entry_size } ==> (accepts(stage, event)
            <==> stage is Sizing && entry_size > 0),
        event matches QueryEvent::Listed { error, adapters } ==> error != 0 ==> (accepts(
            stage,
            event,
        ) <==> stage is Listing),
        event matches QueryEvent::Listed { error, adapters } ==> error == 0 ==> (accepts(
            stage,
            event,
        ) <==> stage is Listing && forall|i: int|
            0 <= i < adapters@.len() ==> (#[trigger] adapters@[i]).wf()),
        event matches QueryEvent::Named { ret, len, buffer } ==> ret == 0 ==> (accepts(
            stage,
            event,
        ) <==> stage is Naming || stage is NamingAgain),
        event matches QueryEvent::Named { ret, len, buffer } ==> ret != 0 ==> (accepts(
            stage,
            event,
        ) <==> (stage is Naming || stage is NamingAgain) && valid_utf8(buffer@)),
{
}

/// What an action is said to hold is what stands in it.
pub proof fn view_is_the_action(action: QueryAction)
    ensures
        match action {
            QueryAction::List { slots } => action@ == (QueryActionView::List { slots }),
            QueryAction::GetNames { len } => action@ == (QueryActionView::GetNames { len }),
            QueryAction::NoAdapters { error } => action@ == (QueryActionView::NoAdapters { error }),
            QueryAction::NoNames => action@ == QueryActionView::NoNames,
            QueryAction::Answer { interfaces } => {
                &&& action@ matches QueryActionView::Answer { interfaces: held }
                &&& held.len() == interfaces@.len()
                &&& forall|i: int|
                    0 <= i < interfaces@.len() ==> #[trigger] held[i] == interfaces@[i]@
            },
        },
{
}

/// What the last of several events in a row leads to.
pub open spec fn outcome(
    stage: QueryStage,
    found: Seq<InterfaceView>,
    events: Seq<QueryEvent>,
) -> QueryActionView
    decreases events.len(),
{
    let (next, known, action) = query_step(stage, found, events[0]);
    if events.len() <= 1 {
        action
    } else {
        outcome(next, known, events.drop_first())
    }
}

/// Where the adapters can be listed and the device names be had, at once or with
/// the buffer size that the driver asked for, the answer is what `interfaces` makes
/// of these adapters and these names.
pub proof fn query_answers_with_interfaces(
    sized: QueryEvent,
    adapters: Vec<Adapter>,
    refused: QueryEvent,
    ret: u8,
    len: u32,
    buffer: Vec<u8>,
)
    requires
        sized is Sized,
        refused is Named && refused->Named_ret == 0,
        ret != 0,
    ensures
        ({
            let listed = QueryEvent::Listed { error: interfaces::NO_ERROR, adapters };
            let named = QueryEvent::Named { ret, len, buffer };
            let answer = QueryActionView::Answer {
                interfaces: interfaces::supported(
                    interfaces::all_described(adapters@),
                    names::names_in(buffer@),
                ),
            };
            let start = QueryStage::Sizing;
            &&& outcome(start, Seq::empty(), seq![sized, listed, named]) == answer
            &&& outcome(start, Seq::empty(), seq![sized, listed, refused, named]) == answer
        }),
{
    reveal_with_fuel(outcome, 4);
}

/// The list of adapters gets the least room that holds what the operating system
/// asked for, and a list that cannot be had ends the query with the error.
pub proof fn query_reports_the_error(adapters_size: u32, entry_size: u32, failed: QueryEvent)
    requires
        entry_size > 0,
        failed is Listed && failed->error != 0,
    ensures
        ({
            let sized = QueryEvent::Sized { adapters_size, entry_size };
            let start = QueryStage::Sizing;
            &&& outcome(start, Seq::empty(), seq![sized]) matches QueryActionView::List { slots }
            &&& slots * entry_size >= adapters_size
            &&& slots * entry_size < adapters_size + entry_size
            &&& outcome(start, Seq::empty(), seq![sized, failed]) == (QueryActionView::NoAdapters {
                error: failed->error,
            })
        }),
{
    reveal_with_fuel(outcome, 2);
    interfaces::slots_hold_the_list(adapters_size, entry_size);
}

/// The driver is first asked for the device names with a buffer of 4096 bytes.
pub proof fn query_asks_for_the_names(sized: QueryEvent, listed: QueryEvent)
    requires
        sized is Sized,
        listed is Listed && listed->error == 0,
    ensures
        outcome(QueryStage::Sizing, Seq::empty(), seq![sized, listed])
            == (QueryActionView::GetNames { len: 4096 }),
{
    reveal_with_fuel(outcome, 2);
}

/// The driver is asked for the device names at most twice: where it fails again,
/// the query gives up.
pub proof fn query_gives_up(
    sized: QueryEvent,
    adapters: Vec<Adapter>,
    refused: QueryEvent,
    refused_again: QueryEvent,
)
    requires
        sized is Sized,
        refused is Named && refused->Named_ret == 0,
        refused_again is Named && refused_again->Named_ret == 0,
    ensures
        ({
            let listed = QueryEvent::Listed { error: interfaces::NO_ERROR, adapters };
            let start = QueryStage::Sizing;
            &&& outcome(start, Seq::empty(), seq![sized, listed, refused])
                == (QueryActionView::GetNames { len: refused->Named_len })
            &&& outcome(start, Seq::empty(), seq![sized, listed, refused, refused_again])
                == QueryActionView::NoNames
        }),
{
    reveal_with_fuel(outcome, 4);
}

} // verus!
