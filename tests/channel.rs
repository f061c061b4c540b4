use spsc_hazard::{channel, RecvErr};

#[test]
fn correct_sequence() {
    let (mut chain, mut sender, mut receiver) = channel::<usize>();
    let mut next: usize = 0;
    for i in 0..512 {
        sender.send(&mut chain, i).unwrap();
        if i % 3 == 0 {
            match receiver.recv(&mut chain) {
                Ok(j) => {
                    assert_eq!(next, j);
                    next += 1;
                }
                Err(_) => unreachable!(),
            }
        }
    }
    while next < 512 {
        match receiver.recv(&mut chain) {
            Ok(j) => {
                assert_eq!(next, j);
                next += 1;
            }
            Err(RecvErr::NoMessage) => (),
            Err(_) => unreachable!(),
        }
    }
    assert_eq!(receiver.recv(&mut chain), Err(RecvErr::NoMessage));
}

#[test]
fn send_after_receiver_gone_returns_value() {
    let (mut chain, mut sender, receiver) = channel::<String>();
    receiver.close(&mut chain);
    let err = sender.send(&mut chain, String::from("kept")).unwrap_err();
    assert_eq!(err.message, "kept");
    let err = sender.send(&mut chain, String::from("again")).unwrap_err();
    assert_eq!(err.message, "again");
    sender.close(&mut chain);
}

#[test]
fn fresh_channel_is_empty_but_usable() {
    let (mut chain, mut sender, mut receiver) = channel::<u32>();
    assert_eq!(receiver.recv(&mut chain), Err(RecvErr::NoMessage));
    assert!(sender.send(&mut chain, 7).is_ok());
    assert_eq!(receiver.recv(&mut chain), Ok(7));
    assert_eq!(receiver.recv(&mut chain), Err(RecvErr::NoMessage));
}

#[test]
fn sender_gone_after_drain() {
    let (mut chain, mut sender, mut receiver) = channel::<u8>();
    sender.send(&mut chain, 1).unwrap();
    sender.send(&mut chain, 2).unwrap();
    sender.close(&mut chain);
    assert_eq!(receiver.recv(&mut chain), Ok(1));
    assert_eq!(receiver.recv(&mut chain), Ok(2));
    assert_eq!(receiver.recv(&mut chain), Err(RecvErr::NoSender));
    assert_eq!(receiver.recv(&mut chain), Err(RecvErr::NoSender));
    receiver.close(&mut chain);
}

#[test]
fn sender_gone_on_empty_channel() {
    let (mut chain, sender, mut receiver) = channel::<u8>();
    sender.close(&mut chain);
    assert_eq!(receiver.recv(&mut chain), Err(RecvErr::NoSender));
}

#[test]
fn receiver_close_with_pending_values() {
    let (mut chain, mut sender, receiver) = channel::<Vec<u8>>();
    sender.send(&mut chain, vec![1]).unwrap();
    sender.send(&mut chain, vec![2, 3]).unwrap();
    receiver.close(&mut chain);
    let err = sender.send(&mut chain, vec![4]).unwrap_err();
    assert_eq!(err.message, vec![4]);
}

#[test]
fn freed_nodes_are_reused_in_order() {
    let (mut chain, mut sender, mut receiver) = channel::<u64>();
    for round in 0..4u64 {
        for k in 0..10u64 {
            sender.send(&mut chain, round * 100 + k).unwrap();
        }
        for k in 0..10u64 {
            assert_eq!(receiver.recv(&mut chain), Ok(round * 100 + k));
        }
        assert_eq!(receiver.recv(&mut chain), Err(RecvErr::NoMessage));
    }
}
