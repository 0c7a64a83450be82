use dbug_desktop::storage_events::{react, Reaction, StorageCommand};

#[test]
fn an_update_is_announced_after_a_short_wait() {
    assert_eq!(
        react(Some(StorageCommand::Updated)),
        Reaction { wait_millis: 50, announce_update: true }
    );
}

#[test]
fn a_closed_channel_is_waited_out() {
    assert_eq!(react(None), Reaction { wait_millis: 1000, announce_update: false });
}
