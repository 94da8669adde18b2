//! What the list of relays shows: which relays, in which order, and the
//! state of the dialog by which a relay is added.

use vstd::prelude::*;
use vstd::string::StringSliceAdditionalSpecFns;
use vstd::utf8::encode_utf8;
use crate::relay::Relay;
use crate::url::RelayUrl;

verus! {

/// What goes into the field for a new relay's URL before the user types.
pub const RELAY_URL_PREPOPULATE: &'static str = "wss://";

/// By what the list of relays is sorted.
#[derive(Clone, Copy, Debug, PartialEq, Eq, Structural)]
pub enum RelaySorting {
    Rank,
    Name,
    WriteRelays,
    AdvertiseRelays,
    HighestFollowing,
    HighestSuccessRate,
    LowestSuccessRate,
}

impl Default for RelaySorting {
    fn default() -> (r: Self)
        ensures
            r == RelaySorting::Rank,
    {
        RelaySorting::Rank
    }
}

impl RelaySorting {
    /// The name of the order, as the user reads it.
    pub fn get_name(&self) -> (r: &'static str)
        ensures
            r@ == match *self {
                RelaySorting::Rank => "Rank"@,
                RelaySorting::Name => "Name"@,
                RelaySorting::WriteRelays => "Write Relays"@,
                RelaySorting::AdvertiseRelays => "Advertise Relays"@,
                RelaySorting::HighestFollowing => "Following"@,
                RelaySorting::HighestSuccessRate => "Success Rate"@,
                RelaySorting::LowestSuccessRate => "Failure Rate"@,
            },
    {
        match self {
            RelaySorting::Rank => "Rank",
            RelaySorting::Name => "Name",
            RelaySorting::WriteRelays => "Write Relays",
            RelaySorting::AdvertiseRelays => "Advertise Relays",
            RelaySorting::HighestFollowing => "Following",
            RelaySorting::HighestSuccessRate => "Success Rate",
            RelaySorting::LowestSuccessRate => "Failure Rate",
        }
    }
}

/// Which relays the list shows.
#[derive(Clone, Copy, Debug, PartialEq, Eq, Structural)]
pub enum RelayFilter {
    All,
    Write,
    Read,
    Advertise,
    Private,
}

impl Default for RelayFilter {
    fn default() -> (r: Self)
        ensures
            r == RelayFilter::All,
    {
        RelayFilter::All
    }
}

impl RelayFilter {
    /// The name of the choice, as the user reads it.
    pub fn get_name(&self) -> (r: &'static str)
        ensures
            r@ == match *self {
                RelayFilter::All => "All"@,
                RelayFilter::Write => "Write"@,
                RelayFilter::Read => "Read"@,
                RelayFilter::Advertise => "Advertise"@,
                RelayFilter::Private => "Private"@,
            },
    {
        match self {
            RelayFilter::All => "All",
            RelayFilter::Write => "Write",
            RelayFilter::Read => "Read",
            RelayFilter::Advertise => "Advertise",
            RelayFilter::Private => "Private",
        }
    }

    /// Whether the choice lets the relay through.
    pub open spec fn admits(&self, relay: &Relay) -> bool {
        match *self {
            RelayFilter::All => true,
            RelayFilter::Write => relay.spec_has_usage_bits(Relay::WRITE),
            RelayFilter::Read => relay.spec_has_usage_bits(Relay::READ),
            RelayFilter::Advertise => relay.spec_has_usage_bits(Relay::ADVERTISE),
            RelayFilter::Private => !relay.spec_has_usage_bits(Relay::MAILBOX),
        }
    }

    /// Whether the choice lets the relay through. A relay is private that
    /// is not both our inbox and our outbox.
    pub fn passes(&self, relay: &Relay) -> (r: bool)
        ensures
            r == self.admits(relay),
    {
        match self {
            RelayFilter::All => true,
            RelayFilter::Write => relay.has_usage_bits(Relay::WRITE),
            RelayFilter::Read => relay.has_usage_bits(Relay::READ),
            RelayFilter::Advertise => relay.has_usage_bits(Relay::ADVERTISE),
            RelayFilter::Private => !relay.has_usage_bits(Relay::MAILBOX),
        }
    }
}

/// How far the dialog that adds a relay has come.
#[derive(Clone, Copy, Debug, PartialEq, Eq, Structural)]
pub enum AddRelayDialogStep {
    Inactive,
    Step1UrlEntry,
    Step2AwaitOverlord,
}

impl Default for AddRelayDialogStep {
    fn default() -> (r: Self)
        ensures
            r == AddRelayDialogStep::Inactive,
    {
        AddRelayDialogStep::Inactive
    }
}

/// The state of the list of relays.
#[derive(Debug)]
pub struct RelayUi {
    /// The text of the search field.
    pub search: String,
    /// How the entries are sorted.
    pub sort: RelaySorting,
    /// Which relays the list shows.
    pub filter: RelayFilter,
    /// Whether hidden relays are shown.
    pub show_hidden: bool,
    /// Whether details are shown.
    pub show_details: bool,
    /// The relay that is being edited.
    pub edit: Option<RelayUrl>,
    /// The list as it stood when the editing began.
    pub edit_relays: Vec<Relay>,
    /// The relay whose editing has just ended.
    pub edit_done: Option<RelayUrl>,
    /// Whether the list has yet to scroll to the edited entry.
    pub edit_needs_scroll: bool,
    /// How far the dialog that adds a relay has come.
    pub add_dialog_step: AddRelayDialogStep,
    /// The text of the field for the new relay's URL.
    pub new_relay_url: String,
    /// Whether the menu that configures the list is open.
    pub configure_list_menu_active: bool,
}

impl RelayUi {
    /// The state of the list when the program starts.
    pub fn new() -> (r: RelayUi)
        ensures
            r.search@.len() == 0,
            r.sort == RelaySorting::Rank,
            r.filter == RelayFilter::All,
            !r.show_hidden,
            !r.show_details,
            r.edit is None,
            r.edit_relays@.len() == 0,
            r.edit_done is None,
            !r.edit_needs_scroll,
            r.add_dialog_step == AddRelayDialogStep::Inactive,
            r.new_relay_url@ == RELAY_URL_PREPOPULATE@,
            !r.configure_list_menu_active,
    {
        RelayUi {
            search: String::new(),
            sort: RelaySorting::Rank,
            filter: RelayFilter::All,
            show_hidden: false,
            show_details: false,
            edit: None,
            edit_relays: Vec::new(),
            edit_done: None,
            edit_needs_scroll: false,
            add_dialog_step: AddRelayDialogStep::Inactive,
            new_relay_url: RELAY_URL_PREPOPULATE.to_owned(),
            configure_list_menu_active: false,
        }
    }
}

/// Whether the dialog that adds a relay is open.
pub fn is_entry_dialog_active(app: &RelayUi) -> (r: bool)
    ensures
        r == (app.add_dialog_step != AddRelayDialogStep::Inactive),
{
    app.add_dialog_step != AddRelayDialogStep::Inactive
}

/// Opens the dialog that adds a relay.
pub fn start_entry_dialog(app: &mut RelayUi)
    ensures
        *final(app) == (RelayUi { add_dialog_step: AddRelayDialogStep::Step1UrlEntry, ..*old(app) }),
{
    app.add_dialog_step = AddRelayDialogStep::Step1UrlEntry;
}

/// Closes the dialog that adds a relay, and clears its field.
pub fn stop_entry_dialog(app: &mut RelayUi)
    ensures
        final(app).add_dialog_step == AddRelayDialogStep::Inactive,
        final(app).new_relay_url@ == RELAY_URL_PREPOPULATE@,
        final(app).search == old(app).search,
        final(app).sort == old(app).sort,
        final(app).filter == old(app).filter,
        final(app).show_hidden == old(app).show_hidden,
        final(app).show_details == old(app).show_details,
        final(app).edit == old(app).edit,
        final(app).edit_relays == old(app).edit_relays,
        final(app).edit_done == old(app).edit_done,
        final(app).edit_needs_scroll == old(app).edit_needs_scroll,
        final(app).configure_list_menu_active == old(app).configure_list_menu_active,
{
    app.new_relay_url = RELAY_URL_PREPOPULATE.to_owned();
    app.add_dialog_step = AddRelayDialogStep::Inactive;
}

/// The text in lower case, as `str::to_lowercase` gives it.
pub uninterp spec fn lowercase_text(text: Seq<char>) -> Seq<char>;

/// `str::to_lowercase`: the text with each character in its lower case,
/// by the rules of Unicode. The outcome depends on the text alone, so
/// the contract names it.
#[verifier::external_body]
fn lowercase(text: &str) -> (r: String)
    ensures
        r@ == lowercase_text(text@),
{
    text.to_lowercase()
}

/// Whether `needle` stands somewhere in `text`.
pub open spec fn is_within(text: Seq<char>, needle: Seq<char>) -> bool {
    exists|i: int|
        0 <= i && i + needle.len() <= text.len() && #[trigger] text.subrange(
            i,
            i + needle.len(),
        ) == needle
}

/// `str::contains` with a text as the pattern: whether the pattern
/// matches a part of the text.
#[verifier::external_body]
fn text_contains(text: &str, needle: &str) -> (r: bool)
    ensures
        r == is_within(text@, needle@),
{
    text.contains(needle)
}

/// Whether the list shows the relay: the relay's URL holds what is
/// searched for, letters taken for their lower case, if more than one
/// byte is searched for; and the chosen filter lets the relay through.
pub open spec fn shown(rui: &RelayUi, relay: &Relay) -> bool {
    (encode_utf8(rui.search@).len() > 1 ==> is_within(
        lowercase_text(relay.url@),
        lowercase_text(rui.search@),
    )) && rui.filter.admits(relay)
}

/// Whether the list shows the relay.
pub fn filter_relay(rui: &RelayUi, ri: &Relay) -> (r: bool)
    ensures
        r == shown(rui, ri),
{
    let found = if rui.search.as_str().as_bytes().len() > 1 {
        let url = lowercase(ri.url.as_str());
        let wanted = lowercase(rui.search.as_str());
        text_contains(url.as_str(), wanted.as_str())
    } else {
        true
    };
    let passes = rui.filter.passes(ri);
    found && passes
}

} // verus!
