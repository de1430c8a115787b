//! The client's state and the transitions that keep it in step with the
//! store.
//!
//! The client is driven one message at a time. A transition changes the
//! state and may ask for a call on the store; the answer to the call comes
//! back later as another message.

use crate::catalog::Catalog;
use crate::error::{message_for, StoreError, ADDED, NO_SELECTION, REMOVED};
use crate::names::{ascending, names_of, sorted_names};
use vstd::prelude::*;

verus! {

/// A message to the client: an action of the user, or the answer to a call
/// on the store.
#[derive(Clone, Debug, PartialEq, Eq)]
pub enum Msg {
    /// The user picked `name` from the list of indicators.
    SelectIndicator(String),
    /// The user asked to add an overlay to the selected indicator.
    Add,
    /// The user asked to remove the overlay of the selected indicator.
    Remove,
    /// An add or a removal succeeded; the text confirms it.
    Confirm(String),
    /// The list of overlaid indicators is to be fetched.
    GetUpdatedIndicators,
    /// The answer to a listing asked for at the given generation.
    SetUpdatedIndicators(u64, Vec<String>),
    /// A listing asked for at the given generation failed; the text says
    /// why.
    RefreshFailed(u64, String),
    /// An add or a removal failed; the text says why.
    Error(String),
}

/// A message as plain values.
pub enum MsgView {
    SelectIndicator(Seq<char>),
    Add,
    Remove,
    Confirm(Seq<char>),
    GetUpdatedIndicators,
    SetUpdatedIndicators(int, Seq<Seq<char>>),
    RefreshFailed(int, Seq<char>),
    Error(Seq<char>),
}

impl View for Msg {
    type V = MsgView;

    open spec fn view(&self) -> MsgView {
        match *self {
            Msg::SelectIndicator(name) => MsgView::SelectIndicator(name@),
            Msg::Add => MsgView::Add,
            Msg::Remove => MsgView::Remove,
            Msg::Confirm(text) => MsgView::Confirm(text@),
            Msg::GetUpdatedIndicators => MsgView::GetUpdatedIndicators,
            Msg::SetUpdatedIndicators(generation, names) => MsgView::SetUpdatedIndicators(
                generation as int,
                names_of(names@),
            ),
            Msg::RefreshFailed(generation, text) => MsgView::RefreshFailed(generation as int, text@),
            Msg::Error(text) => MsgView::Error(text@),
        }
    }
}

/// A call on the store that the client asks for.
#[derive(Clone, Debug, PartialEq, Eq)]
pub enum Command {
    /// Add an overlay to the named indicator.
    Add(String),
    /// Remove the overlay of the named indicator.
    Remove(String),
    /// List the overlaid indicators; the answer is to carry this generation.
    Refresh(u64),
}

/// A command as plain values.
pub enum CommandView {
    Add(Seq<char>),
    Remove(Seq<char>),
    Refresh(int),
}

impl View for Command {
    type V = CommandView;

    open spec fn view(&self) -> CommandView {
        match *self {
            Command::Add(name) => CommandView::Add(name@),
            Command::Remove(name) => CommandView::Remove(name@),
            Command::Refresh(generation) => CommandView::Refresh(generation as int),
        }
    }
}

/// The commands of a list, as plain values.
pub open spec fn commands_of(list: Seq<Command>) -> Seq<CommandView> {
    Seq::new(list.len(), |i: int| list[i]@)
}

/// The text of an optional string.
pub open spec fn text_of(text: Option<String>) -> Option<Seq<char>> {
    match text {
        Some(t) => Some(t@),
        None => None,
    }
}

/// The client's state as plain values.
pub struct ClientView {
    /// The indicators that can be selected.
    pub catalog: Seq<Seq<char>>,
    /// The selected indicator.
    pub selected: Option<Seq<char>>,
    /// The overlaid indicators, as the store last listed them.
    pub overlaid: Seq<Seq<char>>,
    /// The confirmation on show.
    pub status: Option<Seq<char>>,
    /// The error on show.
    pub error: Option<Seq<char>>,
    /// How many adds and removals have succeeded.
    pub generation: int,
}

/// What holds of every state of the client: a confirmation and an error are
/// never on show together, and the selected indicator is one of the catalog.
pub open spec fn consistent(s: ClientView) -> bool {
    &&& !(s.status is Some && s.error is Some)
    &&& s.selected matches Some(name) ==> s.catalog.contains(name)
    &&& 0 <= s.generation <= u64::MAX
}

/// The state of a client that has seen no message.
pub open spec fn initial(catalog: Seq<Seq<char>>) -> ClientView {
    ClientView {
        catalog,
        selected: None,
        overlaid: Seq::empty(),
        status: None,
        error: None,
        generation: 0,
    }
}

/// The generation after a success at generation `g`. The count stops at the
/// greatest number it can hold.
pub open spec fn next_generation(g: int) -> int {
    if g < u64::MAX {
        g + 1
    } else {
        g
    }
}

/// The state `s` with the error `text` on show in place of any confirmation.
pub open spec fn with_error(s: ClientView, text: Seq<char>) -> ClientView {
    ClientView { status: None, error: Some(text), ..s }
}

/// The state `s` with no error on show.
pub open spec fn without_error(s: ClientView) -> ClientView {
    ClientView { error: None, ..s }
}

/// The indicator that an add or a removal asked for in state `s` acts on:
/// the selected one. With nothing selected there is none.
pub open spec fn target_of(s: ClientView) -> Result<Seq<char>, StoreError> {
    match s.selected {
        Some(name) => Ok(name),
        None => Err(StoreError::NotSelected),
    }
}

/// The transition of the client on one message: the state after it, and the
/// calls on the store that it asks for.
///
/// Every message but a stale answer takes the previous error off show. An
/// answer to a listing is stale when it was asked for at another generation
/// than the present one: it changes nothing.
pub open spec fn step(s: ClientView, msg: MsgView) -> (ClientView, Seq<CommandView>) {
    match msg {
        MsgView::SelectIndicator(name) => {
            if s.catalog.contains(name) {
                (ClientView { selected: Some(name), ..without_error(s) }, Seq::empty())
            } else {
                (ClientView { selected: None, ..without_error(s) }, Seq::empty())
            }
        },
        MsgView::Add => match target_of(s) {
            Ok(name) => (without_error(s), seq![CommandView::Add(name)]),
            Err(error) => (with_error(s, message_for(error, Seq::empty())), Seq::empty()),
        },
        MsgView::Remove => match target_of(s) {
            Ok(name) => (without_error(s), seq![CommandView::Remove(name)]),
            Err(error) => (with_error(s, message_for(error, Seq::empty())), Seq::empty()),
        },
        MsgView::Confirm(text) => {
            let generation = next_generation(s.generation);
            (
                ClientView { status: Some(text), generation, ..without_error(s) },
                seq![CommandView::Refresh(generation)],
            )
        },
        MsgView::GetUpdatedIndicators => (
            without_error(s),
            seq![CommandView::Refresh(s.generation)],
        ),
        MsgView::SetUpdatedIndicators(generation, names) => {
            if generation == s.generation {
                (ClientView { overlaid: names, ..without_error(s) }, Seq::empty())
            } else {
                (s, Seq::empty())
            }
        },
        MsgView::RefreshFailed(generation, text) => {
            if generation == s.generation {
                (with_error(s, text), Seq::empty())
            } else {
                (s, Seq::empty())
            }
        },
        MsgView::Error(text) => (with_error(s, text), Seq::empty()),
    }
}

/// The client's state: what the user has selected, what the store last
/// listed, and the one message on show.
#[derive(Debug)]
pub struct ClientState {
    catalog: Catalog,
    selected: Option<String>,
    overlaid: Vec<String>,
    status_message: Option<String>,
    error_message: Option<String>,
    generation: u64,
}

impl View for ClientState {
    type V = ClientView;

    closed spec fn view(&self) -> ClientView {
        ClientView {
            catalog: self.catalog@,
            selected: text_of(self.selected),
            overlaid: names_of(self.overlaid@),
            status: text_of(self.status_message),
            error: text_of(self.error_message),
            generation: self.generation as int,
        }
    }
}

impl ClientState {
    #[verifier::type_invariant]
    spec fn well_formed(self) -> bool {
        consistent(self@)
    }

    /// The state of a client for the indicators of `catalog` that has seen
    /// no message.
    pub fn new(catalog: Catalog) -> (state: ClientState)
        ensures
            state@ == initial(catalog@),
    {
        let state = ClientState {
            catalog,
            selected: None,
            overlaid: Vec::new(),
            status_message: None,
            error_message: None,
            generation: 0,
        };
        assert(state@.overlaid =~= Seq::<Seq<char>>::empty());
        state
    }

    /// The indicators that can be selected.
    pub fn catalog(&self) -> (catalog: &Catalog)
        ensures
            catalog@ == self@.catalog,
    {
        &self.catalog
    }

    /// The selected indicator.
    pub fn selected(&self) -> (selected: &Option<String>)
        ensures
            text_of(*selected) == self@.selected,
            consistent(self@),
    {
        proof {
            use_type_invariant(self);
        }
        &self.selected
    }

    /// The overlaid indicators, as the store last listed them.
    pub fn overlaid(&self) -> (overlaid: &Vec<String>)
        ensures
            names_of(overlaid@) == self@.overlaid,
    {
        &self.overlaid
    }

    /// The confirmation on show.
    pub fn status_message(&self) -> (text: &Option<String>)
        ensures
            text_of(*text) == self@.status,
            consistent(self@),
    {
        proof {
            use_type_invariant(self);
        }
        &self.status_message
    }

    /// The error on show.
    pub fn error_message(&self) -> (text: &Option<String>)
        ensures
            text_of(*text) == self@.error,
            consistent(self@),
    {
        proof {
            use_type_invariant(self);
        }
        &self.error_message
    }

    /// How many adds and removals have succeeded.
    pub fn generation(&self) -> (generation: u64)
        ensures
            generation == self@.generation,
    {
        self.generation
    }

    /// Whether the add and remove actions are open to the user: they are
    /// while an indicator is selected.
    pub fn actions_enabled(&self) -> (enabled: bool)
        ensures
            enabled == self@.selected is Some,
    {
        self.selected.is_some()
    }

    /// The indicator that an add or a removal asked for now would act on.
    pub fn target(&self) -> (target: Result<&String, StoreError>)
        ensures
            match target {
                Ok(name) => target_of(self@) == Ok::<Seq<char>, StoreError>(name@),
                Err(error) => target_of(self@) == Err::<Seq<char>, StoreError>(error),
            },
    {
        match &self.selected {
            Some(name) => Ok(name),
            None => Err(StoreError::NotSelected),
        }
    }

    /// Takes the client through one message and returns the calls on the
    /// store that it now asks for.
    pub fn update(&mut self, msg: Msg) -> (commands: Vec<Command>)
        ensures
            (final(self)@, commands_of(commands@)) == step(old(self)@, msg@),
            consistent(final(self)@),
    {
        proof {
            use_type_invariant(&*self);
        }
        let mut commands: Vec<Command> = Vec::new();
        match msg {
            Msg::SelectIndicator(name) => {
                self.error_message = None;
                if self.catalog.contains(name.as_str()) {
                    self.selected = Some(name);
                } else {
                    self.selected = None;
                }
            },
            Msg::Add => {
                match self.target() {
                    Ok(name) => {
                        commands.push(Command::Add(name.clone()));
                        self.error_message = None;
                    },
                    Err(error) => {
                        self.status_message = None;
                        self.error_message = Some(error.message(""));
                    },
                }
            },
            Msg::Remove => {
                match self.target() {
                    Ok(name) => {
                        commands.push(Command::Remove(name.clone()));
                        self.error_message = None;
                    },
                    Err(error) => {
                        self.status_message = None;
                        self.error_message = Some(error.message(""));
                    },
                }
            },
            Msg::Confirm(text) => {
                self.error_message = None;
                self.status_message = Some(text);
                if self.generation < u64::MAX {
                    self.generation = self.generation + 1;
                }
                commands.push(Command::Refresh(self.generation));
            },
            Msg::GetUpdatedIndicators => {
                self.error_message = None;
                commands.push(Command::Refresh(self.generation));
            },
            Msg::SetUpdatedIndicators(generation, names) => {
                if generation == self.generation {
                    self.error_message = None;
                    self.overlaid = names;
                }
            },
            Msg::RefreshFailed(generation, text) => {
                if generation == self.generation {
                    self.status_message = None;
                    self.error_message = Some(text);
                }
            },
            Msg::Error(text) => {
                self.status_message = None;
                self.error_message = Some(text);
            },
        }
        proof {
            let want = step(old(self)@, msg@);
            assert(commands_of(commands@) =~= want.1);
            assert(self@.overlaid =~= want.0.overlaid);
        }
        commands
    }
}

/// The message that reports how an add or a removal of `indicator` ended:
/// the confirmation `done`, or the words for the error.
pub open spec fn reply_of(
    outcome: Result<(), StoreError>,
    indicator: Seq<char>,
    done: Seq<char>,
) -> MsgView {
    match outcome {
        Ok(_) => MsgView::Confirm(done),
        Err(error) => MsgView::Error(message_for(error, indicator)),
    }
}

/// The message that reports how an add of `indicator` ended.
pub fn add_reply(outcome: Result<(), StoreError>, indicator: &str) -> (msg: Msg)
    ensures
        msg@ == reply_of(outcome, indicator@, ADDED@),
{
    match outcome {
        Ok(_) => Msg::Confirm(ADDED.to_owned()),
        Err(error) => Msg::Error(error.message(indicator)),
    }
}

/// The message that reports how a removal of `indicator` ended.
pub fn remove_reply(outcome: Result<(), StoreError>, indicator: &str) -> (msg: Msg)
    ensures
        msg@ == reply_of(outcome, indicator@, REMOVED@),
{
    match outcome {
        Ok(_) => Msg::Confirm(REMOVED.to_owned()),
        Err(error) => Msg::Error(error.message(indicator)),
    }
}

/// The message that reports how a listing asked for at `generation` ended.
/// The names of a listing are put in ascending order, each once.
pub fn refresh_reply(generation: u64, outcome: Result<Vec<String>, StoreError>) -> (msg: Msg)
    ensures
        outcome matches Ok(names) ==> {
            &&& msg@ matches MsgView::SetUpdatedIndicators(tag, listed)
            &&& tag == generation
            &&& ascending(listed)
            &&& listed.to_set() == names_of(names@).to_set()
        },
        outcome matches Err(error) ==> msg@ == MsgView::RefreshFailed(
            generation as int,
            message_for(error, ""@),
        ),
{
    match outcome {
        Ok(names) => Msg::SetUpdatedIndicators(generation, sorted_names(names)),
        Err(error) => Msg::RefreshFailed(generation, error.message("")),
    }
}

/// The message that a rendering gives rise to: the first one asks for the
/// list of overlaid indicators, later ones for nothing.
pub fn rendered(first_render: bool) -> (msg: Option<Msg>)
    ensures
        first_render ==> (msg matches Some(m) && m@ == MsgView::GetUpdatedIndicators),
        !first_render ==> msg is None,
{
    if first_render {
        Some(Msg::GetUpdatedIndicators)
    } else {
        None
    }
}

/// Every transition keeps the state consistent and leaves the catalog as it
/// is.
pub proof fn law_step_consistent(s: ClientView, msg: MsgView)
    requires
        consistent(s),
    ensures
        consistent(step(s, msg).0),
        step(s, msg).0.catalog == s.catalog,
{
}

/// A name outside the catalog is never the selected indicator: selecting it
/// leaves nothing selected, and no other message selects it.
pub proof fn law_selection_within_catalog(s: ClientView, msg: MsgView, name: Seq<char>)
    requires
        consistent(s),
        !s.catalog.contains(name),
    ensures
        step(s, MsgView::SelectIndicator(name)).0.selected is None,
        step(s, msg).0.selected != Some(name),
{
}

/// No add or removal is asked of the store while nothing is selected; the
/// client shows that nothing is selected instead.
pub proof fn law_no_selection_no_call(s: ClientView)
    requires
        s.selected is None,
    ensures
        step(s, MsgView::Add) == (with_error(s, NO_SELECTION@), Seq::<CommandView>::empty()),
        step(s, MsgView::Remove) == (with_error(s, NO_SELECTION@), Seq::<CommandView>::empty()),
{
}

/// A listing is asked for only when an add or a removal has succeeded, or
/// when the list is asked for outright, and then once. Only a success moves
/// the generation, and the listing that follows it carries the new one.
pub proof fn law_refresh_follows_success(s: ClientView, msg: MsgView)
    ensures
        msg is Confirm ==> step(s, msg).1 == seq![
            CommandView::Refresh(next_generation(s.generation)),
        ] && step(s, msg).0.generation == next_generation(s.generation),
        msg is GetUpdatedIndicators ==> step(s, msg).1 == seq![CommandView::Refresh(s.generation)],
        !(msg is Confirm) ==> step(s, msg).0.generation == s.generation,
        !(msg is Confirm) && !(msg is GetUpdatedIndicators) ==> forall|i: int|
            0 <= i < step(s, msg).1.len() ==> !(#[trigger] step(s, msg).1[i] is Refresh),
{
}

/// The answer to a listing asked for at another generation than the present
/// one changes nothing, whether it brings names or a failure.
pub proof fn law_stale_answer_ignored(
    s: ClientView,
    generation: int,
    names: Seq<Seq<char>>,
    text: Seq<char>,
)
    requires
        generation != s.generation,
    ensures
        step(s, MsgView::SetUpdatedIndicators(generation, names)) == (
            s,
            Seq::<CommandView>::empty(),
        ),
        step(s, MsgView::RefreshFailed(generation, text)) == (s, Seq::<CommandView>::empty()),
{
}

/// Only the names of a listing replace the overlaid indicators. A failed
/// listing leaves them as they were and puts its error on show.
pub proof fn law_overlaid_survives_failure(s: ClientView, msg: MsgView, text: Seq<char>)
    ensures
        !(msg is SetUpdatedIndicators) ==> step(s, msg).0.overlaid == s.overlaid,
        step(s, MsgView::RefreshFailed(s.generation, text)).0 == with_error(s, text),
        with_error(s, text).overlaid == s.overlaid,
{
}

/// After two successes in a row, of the answers to the two listings they
/// asked for, the one to the second listing stays on show, in whichever
/// order the answers arrive.
pub proof fn law_last_listing_wins(
    s: ClientView,
    first_done: Seq<char>,
    second_done: Seq<char>,
    first_names: Seq<Seq<char>>,
    second_names: Seq<Seq<char>>,
)
    requires
        0 <= s.generation,
        s.generation + 2 <= u64::MAX,
    ensures
        ({
            let after = step(step(s, MsgView::Confirm(first_done)).0, MsgView::Confirm(second_done)).0;
            let early = MsgView::SetUpdatedIndicators(s.generation + 1, first_names);
            let late = MsgView::SetUpdatedIndicators(s.generation + 2, second_names);
            &&& step(step(after, early).0, late).0.overlaid == second_names
            &&& step(step(after, late).0, early).0.overlaid == second_names
        }),
{
}

/// The state after the messages of `msgs` have been taken in turn, and the
/// calls on the store asked for on the way.
pub open spec fn run(s: ClientView, msgs: Seq<MsgView>) -> (ClientView, Seq<CommandView>)
    decreases msgs.len(),
{
    if msgs.len() == 0 {
        (s, Seq::empty())
    } else {
        let before = run(s, msgs.drop_last());
        let last = step(before.0, msgs.last());
        (last.0, before.1 + last.1)
    }
}

/// Number of listings among the calls of `commands`.
pub open spec fn listings(commands: Seq<CommandView>) -> nat
    decreases commands.len(),
{
    if commands.len() == 0 {
        0
    } else {
        listings(commands.drop_last()) + if commands.last() is Refresh {
            1nat
        } else {
            0nat
        }
    }
}

/// Number of successes reported among `msgs`.
pub open spec fn successes(msgs: Seq<MsgView>) -> nat
    decreases msgs.len(),
{
    if msgs.len() == 0 {
        0
    } else {
        successes(msgs.drop_last()) + if msgs.last() is Confirm {
            1nat
        } else {
            0nat
        }
    }
}

/// Number of outright requests for the list among `msgs`.
pub open spec fn requests(msgs: Seq<MsgView>) -> nat
    decreases msgs.len(),
{
    if msgs.len() == 0 {
        0
    } else {
        requests(msgs.drop_last()) + if msgs.last() is GetUpdatedIndicators {
            1nat
        } else {
            0nat
        }
    }
}

/// Over any run of messages the client asks for one listing for each
/// success and for each outright request, and for no other: repeated adds
/// and removals that have not succeeded ask for none. Short of the greatest
/// number it can hold, the generation counts the successes.
pub proof fn law_one_listing_for_each_success(s: ClientView, msgs: Seq<MsgView>)
    ensures
        listings(run(s, msgs).1) == successes(msgs) + requests(msgs),
        s.generation + successes(msgs) <= u64::MAX ==> run(s, msgs).0.generation == s.generation
            + successes(msgs),
    decreases msgs.len(),
{
    if msgs.len() > 0 {
        let before = run(s, msgs.drop_last());
        let last = step(before.0, msgs.last());
        law_one_listing_for_each_success(s, msgs.drop_last());
        if last.1.len() == 0 {
            assert(before.1 + last.1 =~= before.1);
        } else {
            assert(last.1.len() == 1);
            assert((before.1 + last.1).drop_last() =~= before.1);
            assert((before.1 + last.1).last() == last.1[0]);
        }
    }
}

} // verus!
