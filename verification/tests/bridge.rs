use kyoso::bridge::{
    create_duplex_plugin, receive_outcome, send_outcome, take_received, DuplexPlugin,
    GlobalEventChannel,
};
use kyoso::channel::{unbounded, Sent, Unreceived, Unsent};

/// The events that were given back, `None` for each that was taken.
fn given_back<T>(attempts: Vec<Result<Sent<T>, Unsent<T>>>) -> Vec<Option<T>> {
    attempts.into_iter().map(|a| a.err().map(|unsent| unsent.into_inner())).collect()
}

#[test]
fn messages_cross_the_bridge_both_ways() {
    let (plugin, ext_rx, ext_tx) = create_duplex_plugin::<u32, String>();
    assert!(ext_tx.send(7).is_ok());
    assert!(ext_tx.send(8).is_ok());
    let mut inbox = vec![1];
    assert_eq!(plugin.receive_external_event(&mut inbox).why(), Unreceived::Empty);
    assert_eq!(inbox, vec![1, 7, 8]);

    let sent = plugin.send_events_externally(vec!["a".to_string(), "b".to_string()]);
    assert_eq!(given_back(sent), vec![None, None]);
    assert_eq!(ext_rx.try_recv().ok(), Some("a".to_string()));
    assert_eq!(ext_rx.try_recv().ok(), Some("b".to_string()));
    assert_eq!(ext_rx.try_recv().err().map(|d| d.why()), Some(Unreceived::Empty));
}

#[test]
fn a_gone_observer_gives_the_events_back() {
    let (plugin, ext_rx, ext_tx) = create_duplex_plugin::<u32, u32>();
    drop(ext_rx);
    let sent = plugin.send_events_externally(vec![3, 4]);
    assert_eq!(given_back(sent), vec![Some(3), Some(4)]);
    drop(ext_tx);
    let mut inbox = Vec::new();
    assert_eq!(plugin.receive_external_event(&mut inbox).why(), Unreceived::Disconnected);
    assert!(inbox.is_empty());
}

#[test]
fn an_unwired_global_channel_refuses() {
    let channel: GlobalEventChannel<u32, u32> = GlobalEventChannel::new();
    assert_eq!(channel.send(1).err(), Some("sender not initialised".to_string()));
    assert_eq!(channel.try_receive(), Err("receiver not initialised".to_string()));
    let other: GlobalEventChannel<u32, u32> = Default::default();
    assert!(other.send(1).is_err());
}

#[test]
fn a_wired_global_channel_carries() {
    let (plugin, ext_rx, ext_tx) = create_duplex_plugin::<u32, u32>();
    let mut channel = GlobalEventChannel::new();
    channel.set_sender(ext_tx);
    channel.set_receiver(ext_rx);
    assert!(channel.send(5).is_ok());
    let mut inbox = Vec::new();
    plugin.receive_external_event(&mut inbox);
    assert_eq!(inbox, vec![5]);
    assert_eq!(channel.try_receive(), Ok(None));
    plugin.send_events_externally(vec![6]);
    assert_eq!(channel.try_receive(), Ok(Some(6)));
    drop(plugin);
    assert_eq!(
        channel.send(1).err(),
        Some("send: sending on a disconnected channel".to_string())
    );
    assert_eq!(
        channel.try_receive(),
        Err("recv: receiving on an empty and disconnected channel".to_string())
    );
}

#[test]
fn outcomes_are_told_apart() {
    assert_eq!(send_outcome::<u8, u8>(Ok(4)), Ok(4));
    assert!(send_outcome::<u8, u8>(Err(1)).is_err());
    assert_eq!(receive_outcome::<u8>(Ok(1)), Ok(Some(1)));
    assert_eq!(receive_outcome::<u8>(Err(Unreceived::Empty)), Ok(None));
    assert!(receive_outcome::<u8>(Err(Unreceived::Disconnected)).is_err());
    let mut events = vec![1];
    assert_eq!(take_received::<u8, Unreceived>(Ok(2), &mut events), None);
    assert_eq!(
        take_received(Err(Unreceived::Empty), &mut events),
        Some(Unreceived::Empty)
    );
    assert_eq!(
        take_received(Err(Unreceived::Disconnected), &mut events),
        Some(Unreceived::Disconnected)
    );
    assert_eq!(events, vec![1, 2]);
}

#[test]
fn a_bridge_takes_the_ends_it_is_given() {
    let (tx, out) = unbounded::<u8>();
    let (input, rx) = unbounded::<u8>();
    let plugin = DuplexPlugin::new(tx, rx);
    assert!(input.send(9).is_ok());
    let mut inbox = Vec::new();
    plugin.receive_external_event(&mut inbox);
    assert_eq!(inbox, vec![9]);
    plugin.send_events_externally(vec![4]);
    assert_eq!(out.try_recv().ok(), Some(4));
}
