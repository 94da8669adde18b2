use gossip_lib::relay::Relay;
use gossip_lib::relay_ui::{
    filter_relay, is_entry_dialog_active, start_entry_dialog, stop_entry_dialog, AddRelayDialogStep,
    RelayFilter, RelaySorting, RelayUi, RELAY_URL_PREPOPULATE,
};
use gossip_lib::url::RelayUrl;

fn ui_relay(text: &str, bits: u64) -> Relay {
    let mut r = Relay::new(RelayUrl::try_from_str(text).unwrap());
    r.usage_bits = bits;
    r
}

#[test]
fn names_of_orders_and_filters() {
    assert_eq!(RelaySorting::Rank.get_name(), "Rank");
    assert_eq!(RelaySorting::Name.get_name(), "Name");
    assert_eq!(RelaySorting::WriteRelays.get_name(), "Write Relays");
    assert_eq!(RelaySorting::AdvertiseRelays.get_name(), "Advertise Relays");
    assert_eq!(RelaySorting::HighestFollowing.get_name(), "Following");
    assert_eq!(RelaySorting::HighestSuccessRate.get_name(), "Success Rate");
    assert_eq!(RelaySorting::LowestSuccessRate.get_name(), "Failure Rate");
    assert_eq!(RelayFilter::All.get_name(), "All");
    assert_eq!(RelayFilter::Write.get_name(), "Write");
    assert_eq!(RelayFilter::Read.get_name(), "Read");
    assert_eq!(RelayFilter::Advertise.get_name(), "Advertise");
    assert_eq!(RelayFilter::Private.get_name(), "Private");
    assert_eq!(RelaySorting::default(), RelaySorting::Rank);
    assert_eq!(RelayFilter::default(), RelayFilter::All);
    assert_eq!(AddRelayDialogStep::default(), AddRelayDialogStep::Inactive);
}

#[test]
fn the_dialog_that_adds_a_relay() {
    let mut ui = RelayUi::new();
    assert_eq!(ui.new_relay_url, "wss://");
    assert_eq!(RELAY_URL_PREPOPULATE, "wss://");
    assert!(!is_entry_dialog_active(&ui));
    start_entry_dialog(&mut ui);
    assert!(is_entry_dialog_active(&ui));
    assert_eq!(ui.add_dialog_step, AddRelayDialogStep::Step1UrlEntry);
    ui.new_relay_url = "wss://typed.example.com".to_string();
    ui.add_dialog_step = AddRelayDialogStep::Step2AwaitOverlord;
    assert!(is_entry_dialog_active(&ui));
    ui.search = "kept".to_string();
    stop_entry_dialog(&mut ui);
    assert!(!is_entry_dialog_active(&ui));
    assert_eq!(ui.new_relay_url, "wss://");
    assert_eq!(ui.search, "kept");
}

#[test]
fn which_relays_the_list_shows() {
    let mut ui = RelayUi::new();
    let both = ui_relay("wss://Relay.Example.com/Path", Relay::INBOX | Relay::OUTBOX | Relay::WRITE);
    let reader = ui_relay("wss://other.example.com/", Relay::READ | Relay::INBOX);
    assert!(filter_relay(&ui, &both) && filter_relay(&ui, &reader));
    ui.filter = RelayFilter::Write;
    assert!(filter_relay(&ui, &both) && !filter_relay(&ui, &reader));
    ui.filter = RelayFilter::Read;
    assert!(!filter_relay(&ui, &both) && filter_relay(&ui, &reader));
    ui.filter = RelayFilter::Advertise;
    assert!(!filter_relay(&ui, &both) && !filter_relay(&ui, &reader));
    ui.filter = RelayFilter::Private;
    assert!(!filter_relay(&ui, &both) && filter_relay(&ui, &reader));

    ui.filter = RelayFilter::All;
    // a search of one byte is none
    ui.search = "z".to_string();
    assert!(filter_relay(&ui, &both));
    // letters count for their lower case, on both sides
    ui.search = "RELAY.exa".to_string();
    assert!(filter_relay(&ui, &both) && !filter_relay(&ui, &reader));
    ui.search = "/path".to_string();
    assert!(filter_relay(&ui, &both));
    ui.search = "zz".to_string();
    assert!(!filter_relay(&ui, &both));
    ui.search = "other".to_string();
    ui.filter = RelayFilter::Write;
    assert!(!filter_relay(&ui, &reader));
}
