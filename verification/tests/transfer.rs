use locadrive::archive::{entry_name, ZipAction, ZipStreamer};
use locadrive::message::Message;
use locadrive::outbox::Outbox;
use locadrive::progress::{report_read, report_write, RefreshTimer, WritePoll};
use locadrive::reader::{ChunkReader, NextChunk, ReadStep};
use locadrive::screen::Row;
use locadrive::transfers::{FileCount, Ticket, Transfers};

fn lines(t: &Transfers) -> Vec<String> {
    t.progress()
        .iter()
        .map(|row| match row {
            Row::Line(text) => text.clone(),
            Row::FileBar { num_files: FileCount::Whole(n), files } => format!("{}|{}", files, n),
            Row::FileBar { num_files: FileCount::Other(n), files } => format!("{}|{}", files, n),
            Row::ByteBar { num_bytes, bytes } => format!("{}|{}", bytes, num_bytes),
            _ => panic!("no such row"),
        })
        .collect()
}

#[test]
fn batches_get_keys_and_keys_are_used_again() {
    let mut t = Transfers::new();
    assert_eq!(t.open_batch(FileCount::Whole(1), 0), 0);
    assert_eq!(t.open_batch(FileCount::Whole(2), 0), 1);
    assert_eq!(t.open_batch(FileCount::Whole(3), 0), 2);
    let second = t.batch_at(1);
    assert!(second.is_some());
    t.close_batch(1);
    assert_eq!(t.batch_at(1), None);
    assert_eq!(t.open_batch(FileCount::Whole(4), 0), 1);
    assert!(t.batch_at(1) != second);
    assert_eq!(t.batch_at(7), None);
    assert!(t.has_room(2));
    assert!(!t.has_room(u64::MAX));
}

#[test]
fn closing_undoes_opening() {
    let mut t = Transfers::new();
    t.open_batch(FileCount::Whole(5), 0);
    let before = lines(&t);
    let key = t.open_batch(FileCount::Whole(9), 0);
    assert!(lines(&t) != before);
    t.close_batch(key);
    assert_eq!(lines(&t), before);
    assert_eq!(t.open_batch(FileCount::Whole(9), 0), key);
}

#[test]
fn files_are_counted_when_finished() {
    let mut t = Transfers::new();
    let key = t.open_batch(FileCount::Whole(2), 0);
    let ticket = t.begin_file(key, "a".to_string(), 8).unwrap();
    let other = t.begin_file(key, "b".to_string(), 4).unwrap();
    assert_eq!((ticket.file, other.file), (0, 1));
    t.advance(&ticket, 3);
    t.advance(&ticket, 2);
    assert_eq!(lines(&t), vec!["0/2", "0|2", "a", "5|8", "b", "0|4"]);
    t.finish_file(ticket);
    assert_eq!(lines(&t), vec!["1/2", "1|2", "b", "0|4"]);
    t.finish_file(other);
    assert_eq!(lines(&t), vec!["2/2", "2|2"]);
}

#[test]
fn no_file_without_a_batch() {
    let mut t = Transfers::new();
    assert_eq!(t.begin_file(0, "a".to_string(), 8), None);
}

#[test]
fn reports_on_a_closed_batch_do_nothing() {
    let mut t = Transfers::new();
    let key = t.open_batch(FileCount::Whole(1), 0);
    let ticket = t.begin_file(key, "a".to_string(), 8).unwrap();
    t.close_batch(key);
    let again = t.open_batch(FileCount::Whole(1), 0);
    assert_eq!(again, key);
    t.begin_file(again, "b".to_string(), 9).unwrap();
    t.advance(&ticket, 3);
    t.finish_file(ticket);
    assert_eq!(lines(&t), vec!["0/1", "0|1", "b", "0|9"]);
}

#[test]
fn batches_do_not_disturb_each_other() {
    let mut t = Transfers::new();
    let a = t.open_batch(FileCount::Whole(1), 0);
    let b = t.open_batch(FileCount::Whole(1), 0);
    let ta = t.begin_file(a, "a".to_string(), 8).unwrap();
    let tb = t.begin_file(b, "b".to_string(), 8).unwrap();
    t.advance(&ta, 1);
    t.advance(&tb, 2);
    t.finish_file(ta);
    assert_eq!(lines(&t), vec!["1/1", "1|1", "0/1", "0|1", "b", "2|8"]);
}

#[test]
fn byte_counts_stop_at_the_limit() {
    let mut t = Transfers::new();
    let key = t.open_batch(FileCount::Whole(1), 0);
    let ticket = t.begin_file(key, "a".to_string(), 8).unwrap();
    t.advance(&ticket, u64::MAX);
    t.advance(&ticket, 5);
    assert_eq!(lines(&t)[3], format!("{}|8", u64::MAX));
}

#[test]
fn progress_of_reading() {
    let mut t = Transfers::new();
    let key = t.open_batch(FileCount::Whole(1), 0);
    let ticket = t.begin_file(key, "a".to_string(), 100).unwrap();
    let mut timer = RefreshTimer::new(1000);
    assert_eq!(report_read(&mut t, &ticket, &mut timer, 10, 30, 500_001_000), None);
    let notice = report_read(&mut t, &ticket, &mut timer, 30, 30, 500_001_001);
    assert_eq!(notice, Some(Message::Refresh));
    assert_eq!(report_read(&mut t, &ticket, &mut timer, 30, 31, 500_001_002), None);
    assert_eq!(lines(&t)[3], "21|100");
}

#[test]
fn progress_of_writing() {
    let mut t = Transfers::new();
    let key = t.open_batch(FileCount::Whole(1), 0);
    let ticket = t.begin_file(key, "a".to_string(), 100).unwrap();
    let mut timer = RefreshTimer::new(0);
    let late = 600_000_000;
    assert_eq!(report_write(&mut t, &ticket, &mut timer, WritePoll::Written(1), 1), None);
    assert_eq!(report_write(&mut t, &ticket, &mut timer, WritePoll::Failed, late), None);
    assert_eq!(report_write(&mut t, &ticket, &mut timer, WritePoll::Pending, late), None);
    let notice = report_write(&mut t, &ticket, &mut timer, WritePoll::Written(7), late);
    assert_eq!(notice, Some(Message::Refresh));
    assert_eq!(report_write(&mut t, &ticket, &mut timer, WritePoll::Written(2), late), None);
    assert_eq!(lines(&t)[3], "10|100");
}

#[test]
fn refreshes_are_more_than_half_a_second_apart() {
    let mut timer = RefreshTimer::new(0);
    let asked = [100, 500_000_000, 500_000_001, 900_000_000, 1_000_000_001, 1_000_000_002, 3];
    let refreshed: Vec<u128> = asked.into_iter().filter(|now| timer.due(*now)).collect();
    assert_eq!(refreshed, [500_000_001, 1_000_000_002]);
}

#[test]
fn archive_takes_its_files_in_order_and_leaves_no_trace() {
    let mut t = Transfers::new();
    let first = t.open_batch(FileCount::Whole(1), 0);
    let before = lines(&t);
    let files = vec!["/x/a".to_string(), "/x/b".to_string()];
    let mut z = ZipStreamer::new(files, &vec![10, 32], &mut t);
    assert!(z.key() != first);
    assert_eq!(lines(&t)[2..], ["-1/2", "-1|2", "Download: 2 files", "0|42"]);
    assert_eq!(z.poll_data(), ZipAction::PollAppend);
    assert_eq!(z.appended(&mut t), ZipAction::StartFile("/x/a".to_string()));
    assert_eq!(lines(&t)[2], "0/2");
    assert_eq!(z.append_pending(false), ZipAction::Wait);
    assert_eq!(z.append_pending(true), ZipAction::HandOut);
    assert_eq!(z.appended(&mut t), ZipAction::StartFile("/x/b".to_string()));
    assert_eq!(lines(&t)[2], "1/2");
    t.advance(&z.ticket(), 42);
    assert_eq!(lines(&t)[5], "42|42");
    assert_eq!(z.appended(&mut t), ZipAction::Finish);
    assert_eq!(lines(&t)[2], "2/2");
    assert_eq!(z.shut_down(), ZipAction::PollLock);
    assert_eq!(z.lock_acquired(&mut t), (ZipAction::HandOut, Message::Refresh));
    assert_eq!(z.poll_data(), ZipAction::End);
    assert_eq!(lines(&t), before);
}

#[test]
fn archive_waits_for_busy_transfers_after_its_last_piece() {
    let mut t = Transfers::new();
    let mut z = ZipStreamer::new(vec!["/x/a".to_string()], &vec![1], &mut t);
    assert_eq!(z.failed(), ZipAction::Fail);
    assert_eq!(z.appended(&mut t), ZipAction::StartFile("/x/a".to_string()));
    assert_eq!(z.appended(&mut t), ZipAction::Finish);
    assert_eq!(z.shut_down(), ZipAction::PollLock);
    assert_eq!(z.lock_busy(), ZipAction::HandOut);
    assert_eq!(lines(&t)[0], "1/1");
    assert_eq!(z.poll_data(), ZipAction::PollLock);
    assert_eq!(z.lock_busy(), ZipAction::Wait);
    assert_eq!(z.poll_data(), ZipAction::PollLock);
    assert_eq!(z.lock_busy(), ZipAction::Wait);
    assert_eq!(lines(&t)[0], "1/1");
    assert_eq!(z.lock_acquired(&mut t), (ZipAction::End, Message::Refresh));
    assert!(lines(&t).is_empty());
    assert_eq!(z.poll_data(), ZipAction::End);
}

#[test]
fn entries_are_named_after_their_files() {
    assert_eq!(entry_name("/home/me/a b.txt"), Some("a b.txt".to_string()));
    assert_eq!(entry_name("/a"), Some("a".to_string()));
    assert_eq!(entry_name("/home/.."), None);
    assert_eq!(entry_name("/"), None);
}

#[test]
fn pieces_make_up_what_was_put_in() {
    let mut outbox = Outbox::new();
    assert!(outbox.is_empty());
    outbox.put(&[1, 2]);
    outbox.put(&[3]);
    assert!(!outbox.is_empty());
    assert_eq!(outbox.take(), [1, 2, 3]);
    assert!(outbox.is_empty());
    assert!(outbox.take().is_empty());
    outbox.put(&[4]);
    assert_eq!(outbox.take(), [4]);
}

#[test]
fn keys_follow_one_another_and_the_last_freed_comes_first() {
    let mut t = Transfers::new();
    for key in 0..4 {
        assert_eq!(t.open_batch(FileCount::Whole(key as u64), 0), key);
    }
    t.close_batch(2);
    t.close_batch(0);
    assert_eq!(t.open_batch(FileCount::Whole(9), 0), 0);
    assert_eq!(t.open_batch(FileCount::Whole(9), 0), 2);
    assert_eq!(t.open_batch(FileCount::Whole(9), 0), 4);
    let files: Vec<usize> = (0..3)
        .map(|_| t.begin_file(4, "f".to_string(), 1).unwrap())
        .map(|ticket| ticket.file)
        .collect();
    assert_eq!(files, [0, 1, 2]);
}

#[test]
fn interleaved_uploads_keep_apart() {
    let mut t = Transfers::new();
    let (a, b) = (t.open_batch(FileCount::Whole(3), 0), t.open_batch(FileCount::Whole(2), 0));
    let a1 = t.begin_file(a, "a1".to_string(), 5).unwrap();
    let b1 = t.begin_file(b, "b1".to_string(), 5).unwrap();
    let a2 = t.begin_file(a, "a2".to_string(), 5).unwrap();
    t.advance(&b1, 2);
    t.finish_file(a1);
    let a3 = t.begin_file(a, "a3".to_string(), 5).unwrap();
    t.advance(&a2, 1);
    t.advance(&a3, 4);
    assert_eq!(
        lines(&t),
        ["1/3", "1|3", "a3", "4|5", "a2", "1|5", "0/2", "0|2", "b1", "2|5"]
    );
    t.finish_file(a3);
    t.finish_file(a2);
    assert_eq!(lines(&t), ["3/3", "3|3", "0/2", "0|2", "b1", "2|5"]);
}

#[test]
fn archive_of_nothing_finishes_at_once() {
    let mut t = Transfers::new();
    let mut z = ZipStreamer::new(vec![], &vec![], &mut t);
    assert_eq!(z.ticket(), Ticket { batch: 0, file: 0 });
    assert_eq!(z.appended(&mut t), ZipAction::Finish);
    assert_eq!(lines(&t), vec!["0/0", "0|0", "Download: 0 files", "0|0"]);
}

#[test]
fn chunks_are_read_in_order() {
    let mut r = ChunkReader::new();
    let mut buf = [0u8; 4];
    assert_eq!(r.read(&mut buf), ReadStep::NeedChunk);
    r.feed(NextChunk::Chunk(vec![1, 2, 3, 4, 5, 6]));
    assert_eq!(r.read(&mut buf), ReadStep::Read(4));
    assert_eq!(buf, [1, 2, 3, 4]);
    assert_eq!(r.read(&mut buf), ReadStep::Read(2));
    assert_eq!(buf, [5, 6, 3, 4]);
    assert_eq!(r.read(&mut buf), ReadStep::NeedChunk);
    r.feed(NextChunk::Chunk(vec![]));
    assert_eq!(r.read(&mut buf), ReadStep::Read(0));
    r.feed(NextChunk::Chunk(vec![7]));
    assert_eq!(r.read(&mut []), ReadStep::Read(0));
    assert_eq!(r.read(&mut buf), ReadStep::Read(1));
    assert_eq!(buf, [7, 6, 3, 4]);
    r.feed(NextChunk::End);
    assert_eq!(r.read(&mut buf), ReadStep::Read(0));
    assert_eq!(r.read(&mut buf), ReadStep::Read(0));
}

#[test]
fn reading_ends_after_a_failure() {
    let mut r = ChunkReader::new();
    let mut buf = [0u8; 4];
    r.feed(NextChunk::Failed);
    assert_eq!(r.read(&mut buf), ReadStep::Read(0));
}
