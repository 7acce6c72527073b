use kernel_core::memory::paging::{self, FrameAllocator, page_index, PHYS_BASE, FRAME_COUNT};
use kernel_core::memory::allocator::LinkedListAllocator;
use kernel_core::memory::bucket_allocator::{BucketAllocator, bucket_index, bucket_size};
use kernel_core::memory::free_list::align_up;
use kernel_core::memory::{heap_stats, HEAP_SIZE};
use kernel_core::fs::ramfs::{self, RamFs, normalize};
use kernel_core::fs::vfs::{FileSystem, FsError};
use kernel_core::keyboard::{self, KeyEvent, KeyRing, KeyboardState, encode, decode, scancode_to_ascii, process_scancode};
use kernel_core::vga::{self, Console, Color, color_code};
use kernel_core::scheduler::{self, Scheduler, TaskState};
use kernel_core::timer::{self, Timer};
use kernel_core::rtc::{self, bcd_to_bin};
use kernel_core::ata::{ready_poll, drq_poll, task_file, buffer_ok, Poll, AtaError};
use kernel_core::arch::{trace_step, frame_line, bad_frame_line, bad_pointer_line, TraceStep};

#[test]
fn frames_alloc_and_free() {
    let mut fa = FrameAllocator::new();
    assert_eq!(paging::alloc_frame(&mut fa), 0);
    paging::init(&mut fa);
    assert_eq!(paging::stats(&fa), (FRAME_COUNT, FRAME_COUNT, 0));
    let a = paging::alloc_frame(&mut fa);
    let b = paging::alloc_frame(&mut fa);
    assert_eq!(a, PHYS_BASE);
    assert_eq!(b, PHYS_BASE + 4096);
    assert_eq!(paging::stats(&fa), (FRAME_COUNT, FRAME_COUNT - 2, 2));
    paging::free_frame(&mut fa, a);
    assert_eq!(paging::alloc_frame(&mut fa), a);
    paging::free_frame(&mut fa, a);
    paging::free_frame(&mut fa, b);
    assert_eq!(paging::stats(&fa), (FRAME_COUNT, FRAME_COUNT, 0));
    assert_eq!(page_index(PHYS_BASE + 3 * 4096), Some(3));
    assert_eq!(page_index(PHYS_BASE - 4096), None);
    assert!(paging::test_bit(&fa, 0));
}

#[test]
fn linked_list_first_fit() {
    let mut h = LinkedListAllocator::new();
    h.init(0x1000, 0x1000);
    let a = h.allocate(32, 8).unwrap();
    assert_eq!(a, 0x1000);
    assert_eq!(h.used_bytes(), 32);
    let b = h.allocate(32, 8).unwrap();
    assert_eq!(b, 0x1020);
    h.dealloc(a, 32, 8);
    assert_eq!(h.used_bytes(), 32);
    assert_eq!(h.allocate(16, 8), Some(0x1000));
    assert_eq!(h.allocate(0x2000, 8), None);
    let c = h.allocate(64, 64).unwrap();
    assert_eq!(c % 64, 0);
    let d = h.allocate(3, 1).unwrap();
    assert_eq!(d % 8, 0);
    assert_eq!(h.used_bytes(), 32 + 16 + 64 + 8);
}

#[test]
fn bucket_classes() {
    assert_eq!(bucket_index(1), Some(0));
    assert_eq!(bucket_index(8), Some(0));
    assert_eq!(bucket_index(9), Some(1));
    assert_eq!(bucket_index(2048), Some(8));
    assert_eq!(bucket_index(2049), None);
    assert_eq!(bucket_size(3), 64);
    assert_eq!(align_up(13, 8), 16);
    assert_eq!(align_up(16, 8), 16);
}

#[test]
fn bucket_allocator_reuses_last_freed() {
    let mut h = BucketAllocator::new();
    let start = 0x10_0000;
    h.init(start, HEAP_SIZE);
    let p = h.allocate(24, 8).unwrap();
    assert!(p >= start + 2048 + 4096 && p < start + 2048 + 4096 + 8192);
    assert_eq!(h.used_bytes(), 32);
    let q = h.allocate(24, 8).unwrap();
    assert_ne!(p, q);
    h.dealloc(p, 24, 8);
    assert_eq!(h.allocate(20, 8), Some(p));
    let big = h.allocate(4096, 8).unwrap();
    assert!(big >= start + 256 * 4088);
    assert_eq!(h.used_bytes(), 64 + 4096);
    let aligned = h.allocate(16, 4096).unwrap();
    assert_eq!(aligned % 4096, 0);
    let (used, free) = heap_stats(&h);
    assert_eq!(used + free, HEAP_SIZE);
    let rows = h.usage();
    assert_eq!(rows.len(), 9);
    assert_eq!(rows[2].block_size, 32);
    assert_eq!(rows[2].used, 2);
    assert_eq!(rows[2].total, 256);
}

#[test]
fn ramfs_semantics() {
    let mut fs = RamFs::new();
    assert_eq!(ramfs::read(&fs, "a.txt"), Err(FsError::NotFound));
    assert_eq!(ramfs::create(&mut fs, "a.txt"), Ok(()));
    assert_eq!(ramfs::create(&mut fs, "a.txt"), Err(FsError::Exists));
    assert_eq!(ramfs::read(&fs, "a.txt"), Ok(vec![]));
    assert_eq!(ramfs::write(&mut fs, " b.txt ", b"hello"), Ok(()));
    assert_eq!(ramfs::read(&fs, "b.txt"), Ok(b"hello".to_vec()));
    assert_eq!(ramfs::write(&mut fs, "a/b", b"x"), Err(FsError::InvalidName));
    assert_eq!(ramfs::read(&fs, "  "), Err(FsError::InvalidName));
    let l = ramfs::list(&fs);
    assert_eq!(l, vec![("a.txt".to_string(), 0), ("b.txt".to_string(), 5)]);
    assert_eq!(ramfs::delete(&mut fs, "a.txt"), Ok(()));
    assert_eq!(ramfs::delete(&mut fs, "a.txt"), Err(FsError::NotFound));
    assert_eq!(FileSystem::list(&fs).len(), 1);
    assert_eq!(FileSystem::read(&fs, "b.txt"), Ok(b"hello".to_vec()));
    assert_eq!(normalize("  x  "), Ok("x".to_string()));
    assert_eq!(FsError::Exists.message(), "already exists");
}

#[test]
fn ramfs_read_after_write_and_overwrite() {
    let mut fs = RamFs::new();
    ramfs::write(&mut fs, "f", b"one").unwrap();
    ramfs::write(&mut fs, "f", b"two!").unwrap();
    assert_eq!(ramfs::read(&fs, "f"), Ok(b"two!".to_vec()));
    ramfs::write(&mut fs, "Z", b"z").unwrap();
    ramfs::write(&mut fs, "B", b"b").unwrap();
    let names: Vec<String> = ramfs::list(&fs).into_iter().map(|(n, _)| n).collect();
    assert_eq!(names, vec!["B".to_string(), "Z".to_string(), "f".to_string()]);
}

#[test]
fn key_events_encode_decode_and_ring() {
    for ev in [KeyEvent::Char(b'x'), KeyEvent::Up, KeyEvent::Ctrl('c'), KeyEvent::PageDown, KeyEvent::Escape] {
        assert_eq!(decode(encode(ev)), Some(ev));
    }
    assert_eq!(decode(0), None);
    let mut ring = KeyRing::new();
    assert_eq!(keyboard::pop_event(&mut ring), None);
    ring.push(KeyEvent::Char(b'a'));
    ring.push(KeyEvent::Enter);
    assert_eq!(keyboard::pop_event(&mut ring), Some(KeyEvent::Char(b'a')));
    assert_eq!(keyboard::pop_event(&mut ring), Some(KeyEvent::Enter));
    for _ in 0..100 {
        ring.push(KeyEvent::Up);
    }
    let mut n = 0;
    while keyboard::pop_event(&mut ring).is_some() {
        n += 1;
    }
    assert_eq!(n, 63);
    ring.push(KeyEvent::Down);
    keyboard::flush(&mut ring);
    assert_eq!(keyboard::pop_event(&mut ring), None);
}

#[test]
fn scancodes() {
    assert_eq!(scancode_to_ascii(0x1E, false), Some(b'a'));
    assert_eq!(scancode_to_ascii(0x1E, true), Some(b'A'));
    assert_eq!(scancode_to_ascii(0x02, true), Some(b'!'));
    let mut st = KeyboardState::new();
    assert_eq!(process_scancode(&mut st, 0x2A), None);
    assert_eq!(process_scancode(&mut st, 0x10), Some(KeyEvent::Char(b'Q')));
    assert_eq!(process_scancode(&mut st, 0xAA), None);
    assert_eq!(process_scancode(&mut st, 0x10), Some(KeyEvent::Char(b'q')));
    assert_eq!(process_scancode(&mut st, 0x1D), None);
    assert_eq!(process_scancode(&mut st, 0x2E), Some(KeyEvent::Ctrl('c')));
    assert_eq!(process_scancode(&mut st, 0x9D), None);
    assert_eq!(process_scancode(&mut st, 0xE0), None);
    assert_eq!(process_scancode(&mut st, 0x48), Some(KeyEvent::Up));
    assert_eq!(process_scancode(&mut st, 0x1C), Some(KeyEvent::Enter));
}

#[test]
fn console_writes_and_cursor() {
    let mut c = Console::new();
    vga::write_fmt(&mut c, "hi\nyo");
    let s = c.screen();
    assert_eq!(s[0], b'h');
    assert_eq!(s[1], 0x07);
    assert_eq!(s[2], b'i');
    assert_eq!(s[160], b'y');
    assert_eq!(vga::cursor_position(&c), (1, 2));
    vga::backspace(&mut c);
    assert_eq!(vga::cursor_position(&c), (1, 1));
    assert_eq!(c.screen()[162], b' ');
    vga::set_color(&mut c, Color::White, Color::Red);
    vga::write_at(&mut c, 5, 78, "abc");
    assert_eq!(c.screen()[5 * 160 + 156], b'a');
    assert_eq!(c.screen()[5 * 160 + 157], 0x4F);
    assert_eq!(c.screen()[5 * 160 + 158], b'b');
    vga::status_line(&mut c, "status");
    assert_eq!(c.screen()[24 * 160], b's');
    assert_eq!(c.screen()[24 * 160 + 1], 0x70);
    vga::set_cursor(&mut c, 100, 100);
    assert_eq!(vga::cursor_position(&c), (23, 79));
    assert_eq!(color_code(Color::Yellow, Color::Blue), 0x1E);
}

#[test]
fn console_scrolls_at_bottom() {
    let mut c = Console::new();
    for i in 0..30u8 {
        let line = format!("line{}\n", i);
        vga::write_fmt(&mut c, &line);
    }
    let s = c.screen();
    assert_eq!(&[s[0], s[2], s[4], s[6], s[8], s[10]], b"line7\0");
    vga::clear_screen(&mut c);
    assert_eq!(vga::cursor_position(&c), (0, 0));
    assert_eq!(c.screen()[0], b' ');
}

#[test]
fn scrollback_keeps_newest_lines() {
    let mut c = Console::new();
    for i in 0..600u32 {
        let line = format!("L{:03}\n", i);
        vga::write_fmt(&mut c, &line);
    }
    assert_eq!(c.lines_logged(), 577);
    vga::scroll_display_up(&mut c, 1);
    assert_eq!(c.scrolled_by(), 1);
    let s = c.screen();
    assert_eq!(&[s[0], s[2], s[4], s[6]], b"L552");
    assert_eq!(&[s[23 * 160], s[23 * 160 + 2], s[23 * 160 + 4], s[23 * 160 + 6]], b"L575");
    vga::scroll_display_up(&mut c, 52);
    let s = c.screen();
    assert_eq!(&[s[0], s[2], s[4], s[6]], b"L500");
    vga::scroll_display_up(&mut c, 1000);
    assert_eq!(c.scrolled_by(), 476);
    let s = c.screen();
    assert_eq!(&[s[0], s[2], s[4], s[6]], b"L077");
}

#[test]
fn round_robin_scheduling() {
    let mut s = Scheduler::new([0x10000, 0x20000, 0x30000, 0x40000, 0x50000, 0x60000, 0x70000, 0x80000]);
    scheduler::init(&mut s);
    assert_eq!(scheduler::spawn(&mut s, 0xdead), 1);
    let tasks = scheduler::print_tasks(&s);
    assert_eq!(tasks.len(), 2);
    assert_eq!(tasks[0].1, "Ready");
    assert_eq!(tasks[1].1, "Ready");
    let first = scheduler::schedule(&mut s, 0x9000);
    assert_ne!(first, 0x9000);
    let back = scheduler::schedule(&mut s, first);
    assert_eq!(back, 0x9000);
    for _ in 0..6 {
        assert!(scheduler::spawn(&mut s, 0xbeef) > 0);
    }
    assert_eq!(scheduler::spawn(&mut s, 0xbeef), -1);
    assert_eq!(TaskState::Running.name(), "Run");
}

#[test]
fn every_ready_task_runs_within_a_round() {
    let mut s = Scheduler::new([0x10000, 0x20000, 0x30000, 0x40000, 0x50000, 0x60000, 0x70000, 0x80000]);
    scheduler::init(&mut s);
    for _ in 0..7 {
        assert!(scheduler::spawn(&mut s, 0xbeef) > 0);
    }
    let mut got: Vec<u64> = Vec::new();
    for i in 0..16u64 {
        got.push(scheduler::schedule(&mut s, 0x1000 + i));
    }
    let mut first_round = got[0..8].to_vec();
    first_round.sort();
    first_round.dedup();
    assert_eq!(first_round.len(), 8);
    for i in 0..7usize {
        assert_eq!(got[8 + i], 0x1000 + (i as u64) + 1);
    }
}

#[test]
fn timer_counts_milliseconds() {
    let mut t = Timer::new();
    for _ in 0..2345 {
        timer::tick(&mut t);
    }
    assert_eq!(timer::millis(&t), 2345);
    assert_eq!(timer::elapsed(&t), (2, 345));
    assert_eq!(bcd_to_bin(0x59), 59);
}

#[test]
fn ata_status_decisions() {
    assert_eq!(ready_poll(0x50), Poll::Done);
    assert_eq!(ready_poll(0x80), Poll::Again);
    assert_eq!(ready_poll(0x51), Poll::Fail(AtaError::Device));
    assert_eq!(drq_poll(0x58), Poll::Done);
    assert_eq!(drq_poll(0x50), Poll::Fail(AtaError::NoData));
    assert_eq!(drq_poll(0x80), Poll::Again);
    assert_eq!(task_file(0x0123_4567, 2), [0xE1, 2, 0x67, 0x45, 0x23]);
    assert!(buffer_ok(2, 1024));
    assert!(!buffer_ok(2, 1023));
    assert!(!buffer_ok(0, 1024));
    assert_eq!(AtaError::NoData.text(), "ATA no data");
}

#[test]
fn stack_trace_steps_and_lines() {
    assert_eq!(trace_step(0), TraceStep::End);
    assert_eq!(trace_step(0x1000), TraceStep::BadFrame);
    assert_eq!(trace_step(0x20_0004), TraceStep::BadFrame);
    assert_eq!(trace_step(0x9000_0000_0000), TraceStep::BadFrame);
    assert_eq!(trace_step(0x8000_0000_0000), TraceStep::BadPointer);
    assert_eq!(trace_step(0x20_0008), TraceStep::Follow);
    assert_eq!(frame_line(3, 0x1234), b"  #03  0x0000000000001234\n".to_vec());
    assert_eq!(bad_frame_line(12, 0xabc), b"  #12  <invalid frame 0x0000000000000abc>\n".to_vec());
    assert_eq!(bad_pointer_line(0), b"  #00  <invalid pointer>\n".to_vec());
}

#[test]
fn rtc_twelve_hour_bcd_clock() {
    let t = rtc::read(0x00, (0x30, 0x45, 0x81), 0x30, (0, 0, 0));
    assert_eq!((t.hours, t.minutes, t.seconds), (13, 45, 30));
    let t = rtc::read(0x00, (0x00, 0x00, 0x12), 0x00, (0, 0, 0));
    assert_eq!(t.hours, 0);
    let t = rtc::read(0x00, (0x00, 0x00, 0x92), 0x00, (0, 0, 0));
    assert_eq!(t.hours, 12);
    let t = rtc::read(0x06, (5, 6, 23), 5, (0, 0, 0));
    assert_eq!((t.hours, t.minutes, t.seconds), (23, 6, 5));
    let t = rtc::read(0x02, (0x10, 0x20, 0x21), 0x11, (0x11, 0x20, 0x21));
    assert_eq!((t.hours, t.minutes, t.seconds), (21, 20, 11));
}

#[test]
fn ramfs_read_back_across_other_calls() {
    let mut fs = RamFs::new();
    ramfs::write(&mut fs, "f", b"data").unwrap();
    ramfs::write(&mut fs, "g", b"other").unwrap();
    ramfs::create(&mut fs, "h").unwrap();
    ramfs::delete(&mut fs, "g").unwrap();
    assert_eq!(ramfs::write(&mut fs, "bad/name", b"x"), Err(FsError::InvalidName));
    assert_eq!(ramfs::read(&fs, "f"), Ok(b"data".to_vec()));
    assert_eq!(ramfs::read(&fs, "  f "), Ok(b"data".to_vec()));
    assert_eq!(ramfs::read(&fs, "z"), Err(FsError::NotFound));
    assert_eq!(ramfs::read(&fs, "g"), Err(FsError::NotFound));
}

#[test]
fn key_ring_keeps_order_and_drops_when_full() {
    let mut ring = KeyRing::new();
    for i in 0..70u8 {
        ring.push(KeyEvent::Char(i));
    }
    for i in 0..63u8 {
        assert_eq!(keyboard::pop_event(&mut ring), Some(KeyEvent::Char(i)));
    }
    assert_eq!(keyboard::pop_event(&mut ring), None);
}

#[test]
fn live_blocks_never_overlap() {
    let mut h = LinkedListAllocator::new();
    h.init(0x1000, 0x400);
    let mut live: Vec<(usize, usize)> = Vec::new();
    for size in [24usize, 40, 16, 64, 100] {
        let p = h.allocate(size, 8).unwrap();
        live.push((p, size.max(8)));
    }
    let (p, n) = live.remove(1);
    h.dealloc(p, n, 8);
    for size in [16usize, 8, 32] {
        let q = h.allocate(size, 8).unwrap();
        live.push((q, size.max(8)));
    }
    for a in 0..live.len() {
        for b in a + 1..live.len() {
            let (pa, na) = live[a];
            let (pb, nb) = live[b];
            assert!(pa + na <= pb || pb + nb <= pa, "{:?} overlaps {:?}", live[a], live[b]);
        }
    }
}
