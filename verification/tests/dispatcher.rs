use ifconnect::data::ConnectionData;
use ifconnect::outbound::{command_pieces, Command, Outbound};
use ifconnect::typed_value::TypedValue;

/// Writes to a sink that takes everything, one command per poll, and
/// returns the writes of the poll.
fn poll(outbound: &mut Outbound) -> Vec<Vec<u8>> {
    let mut writes = Vec::new();
    let mut piece = outbound.send();
    while let Some(bytes) = piece {
        piece = outbound.written(bytes.len());
        writes.push(bytes);
    }
    writes
}

#[test]
fn commands_leave_in_the_order_in_which_they_came() {
    let mut outbound = Outbound::new();
    outbound.enqueue(Command::GetState(5));
    outbound.enqueue(Command::SetState(9, TypedValue::Integer32(42)));
    assert_eq!(outbound.waiting(), 2);
    assert_eq!(poll(&mut outbound), vec![vec![5, 0, 0, 0], vec![0, 0, 0, 0]]);
    assert_eq!(
        poll(&mut outbound),
        vec![vec![9, 0, 0, 0], vec![1, 0, 0, 0], vec![42, 0, 0, 0]]
    );
    assert_eq!(poll(&mut outbound), Vec::<Vec<u8>>::new());
    assert_eq!(outbound.waiting(), 0);
    assert!(!outbound.in_flight());
}

#[test]
fn the_data_path_writes_the_same_frames() {
    let mut data = ConnectionData::new();
    data.send_get_state(5);
    data.send_set_state(9, TypedValue::Integer32(42));
    data.send_command(12);
    let mut polls = Vec::new();
    for _ in 0..4 {
        let mut writes = Vec::new();
        let mut piece = data.send();
        while let Some(bytes) = piece {
            piece = data.written(bytes.len());
            writes.extend(bytes);
        }
        polls.push(writes);
    }
    assert_eq!(
        polls,
        vec![
            vec![5, 0, 0, 0, 0, 0, 0, 0],
            vec![9, 0, 0, 0, 1, 0, 0, 0, 42, 0, 0, 0],
            vec![12, 0, 0, 0, 0, 0, 0, 0],
            vec![],
        ]
    );
}

#[test]
fn an_empty_dispatcher_has_nothing_to_write() {
    let mut outbound = Outbound::new();
    assert_eq!(outbound.send(), None);
    assert_eq!(outbound.written(4), None);
    assert_eq!(outbound.waiting(), 0);
    assert!(!outbound.in_flight());
}

#[test]
fn a_piece_that_the_sink_refuses_is_offered_again() {
    let mut outbound = Outbound::new();
    outbound.enqueue(Command::GetState(5));
    outbound.enqueue(Command::GetState(6));
    assert_eq!(outbound.send(), Some(vec![5, 0, 0, 0]));
    assert_eq!(outbound.waiting(), 1);
    assert!(outbound.in_flight());
    // would block: nothing is reported, the next poll offers the same piece
    assert_eq!(outbound.send(), Some(vec![5, 0, 0, 0]));
    assert_eq!(outbound.send(), Some(vec![5, 0, 0, 0]));
    assert_eq!(outbound.waiting(), 1);
    assert_eq!(outbound.written(4), Some(vec![0, 0, 0, 0]));
    // would block on the flag
    assert_eq!(outbound.send(), Some(vec![0, 0, 0, 0]));
    assert_eq!(outbound.written(4), None);
    assert!(!outbound.in_flight());
    assert_eq!(outbound.send(), Some(vec![6, 0, 0, 0]));
}

#[test]
fn a_piece_taken_in_part_keeps_its_rest() {
    let mut outbound = Outbound::new();
    outbound.enqueue(Command::SetState(0x0403_0201, TypedValue::String("hello".to_string())));
    assert_eq!(outbound.send(), Some(vec![1, 2, 3, 4]));
    assert_eq!(outbound.written(1), None);
    assert_eq!(outbound.send(), Some(vec![2, 3, 4]));
    assert_eq!(outbound.written(0), None);
    assert_eq!(outbound.send(), Some(vec![2, 3, 4]));
    assert_eq!(outbound.written(2), None);
    assert_eq!(outbound.send(), Some(vec![4]));
    assert_eq!(outbound.written(1), Some(vec![1, 0, 0, 0]));
    assert_eq!(outbound.written(4), Some(b"hello".to_vec()));
    assert_eq!(outbound.written(3), None);
    assert_eq!(outbound.send(), Some(b"lo".to_vec()));
    assert_eq!(outbound.written(2), None);
    assert_eq!(outbound.send(), None);
}

#[test]
fn more_than_the_piece_counts_as_the_piece() {
    let mut outbound = Outbound::new();
    outbound.enqueue(Command::GetState(1));
    assert_eq!(outbound.send(), Some(vec![1, 0, 0, 0]));
    assert_eq!(outbound.written(100), Some(vec![0, 0, 0, 0]));
    assert_eq!(outbound.written(usize::MAX), None);
    assert_eq!(outbound.send(), None);
}

#[test]
fn whatever_the_sink_takes_the_stream_is_the_frames_in_order() {
    let commands = vec![
        Command::GetState(5),
        Command::SetState(9, TypedValue::Integer32(42)),
        Command::SetState(-1, TypedValue::String("päth".to_string())),
        Command::SetState(3, TypedValue::Double(1.5f64.to_bits())),
        Command::GetState(i32::MIN),
        Command::SetState(4, TypedValue::String(String::new())),
        Command::SetState(6, TypedValue::Boolean(true)),
    ];
    let mut expected = Vec::new();
    for command in &commands {
        for piece in command_pieces(command) {
            expected.extend(piece);
        }
    }
    for take in 1..7usize {
        let mut outbound = Outbound::new();
        let mut stream = Vec::new();
        let mut pending = commands.clone().into_iter();
        let mut polls = 0;
        loop {
            // a producer enqueues between polls
            if let Some(command) = pending.next() {
                outbound.enqueue(command);
            }
            let mut piece = outbound.send();
            if piece.is_none() && stream.len() == expected.len() {
                break;
            }
            let mut budget = take;
            while let Some(bytes) = piece {
                let n = bytes.len().min(budget);
                stream.extend_from_slice(&bytes[..n]);
                budget -= n;
                piece = outbound.written(n);
            }
            polls += 1;
            assert!(polls < 1000);
        }
        assert_eq!(stream, expected, "sink takes {} bytes per poll", take);
    }
}

#[test]
fn the_pieces_of_a_command() {
    assert_eq!(
        command_pieces(&Command::GetState(-1)),
        vec![vec![0xff, 0xff, 0xff, 0xff], vec![0, 0, 0, 0]]
    );
    assert_eq!(
        command_pieces(&Command::SetState(2, TypedValue::Long(3))),
        vec![vec![2, 0, 0, 0], vec![1, 0, 0, 0], vec![3, 0, 0, 0, 0, 0, 0, 0]]
    );
    assert_eq!(
        command_pieces(&Command::SetState(2, TypedValue::Float(1.0f32.to_bits()))),
        vec![vec![2, 0, 0, 0], vec![1, 0, 0, 0], vec![0, 0, 0x80, 0x3f]]
    );
    assert_eq!(
        command_pieces(&Command::SetState(2, TypedValue::String("ab".to_string()))),
        vec![vec![2, 0, 0, 0], vec![1, 0, 0, 0], vec![b'a', b'b']]
    );
    assert_eq!(
        command_pieces(&Command::SetState(2, TypedValue::String(String::new()))),
        vec![vec![2, 0, 0, 0], vec![1, 0, 0, 0]]
    );
}

#[test]
fn one_command_is_written_per_poll() {
    let mut outbound = Outbound::new();
    for id in 0..5 {
        outbound.enqueue(Command::GetState(id));
    }
    for id in 0..5u8 {
        assert_eq!(outbound.waiting(), 5 - id as usize);
        assert_eq!(poll(&mut outbound), vec![vec![id, 0, 0, 0], vec![0, 0, 0, 0]]);
    }
    assert!(poll(&mut outbound).is_empty());
}

#[test]
fn a_cloned_command_is_the_same_command() {
    let command = Command::SetState(2, TypedValue::String("ab".to_string()));
    assert_eq!(command_pieces(&command.clone()), command_pieces(&command));
}
