use kernel::boot::{Segment, CHILD_BUFFER_SLOT, KEYBOARD_CHANNEL_SLOT, PT_LOAD, RINIT_BUFFER_VADDR, UTILITY_CHANNEL_SLOT};
use kernel::cap::{CapKind, CapabilityPool, CapabilityPoolCapability, CapabilityUnion, POOL_SLOTS};
use kernel::channel::ChannelHalf;
use kernel::kernel::{Exception, Kernel, SyscallOutcome};
use kernel::page::{PageHalf, BASE_PAGE_LENGTH};
use kernel::task::{next_status, SystemCall, TaskEvent, TaskStatus};
use kernel::untyped::UntypedHalf;

fn two_regions() -> Vec<(usize, usize)> {
    vec![(0x100000, 0x10000), (0x1000000, 0x800000)]
}

fn booted() -> Kernel {
    Kernel::boot(&two_regions(), &Vec::new(), 0x400000, &Vec::new()).unwrap()
}

#[test]
fn allocate_aligns_and_advances() {
    let mut u = UntypedHalf::bootstrap(0x1001, 0x3000);
    assert_eq!(u.allocate(0x10, 0x100), Some(0x1100));
    assert_eq!(u.watermark, 0x1110);
    assert_eq!(u.allocate(0x8, 0x8), Some(0x1110));
    assert_eq!(u.watermark, 0x1118);
    assert_eq!(u.allocate(0x1000, 0x1000), Some(0x2000));
    assert_eq!(u.watermark, 0x3000);
}

#[test]
fn allocate_ranges_are_disjoint() {
    let mut u = UntypedHalf::bootstrap(0, 0x10000);
    let mut ranges: Vec<(usize, usize)> = Vec::new();
    let requests = [(0x10usize, 8usize), (0x100, 0x100), (0x3, 1), (0x1000, 0x1000), (0x20, 0x10)];
    for (size, align) in requests {
        let a = u.allocate(size, align).unwrap();
        assert_eq!(a % align, 0);
        ranges.push((a, a + size));
    }
    for i in 0..ranges.len() {
        for j in i + 1..ranges.len() {
            assert!(ranges[i].1 <= ranges[j].0);
        }
    }
}

#[test]
fn allocate_past_the_end_is_rejected_and_changes_nothing() {
    let mut u = UntypedHalf::bootstrap(0x1000, 0x1000);
    assert_eq!(u.allocate(0x800, 8), Some(0x1000));
    let before = u;
    assert_eq!(u.allocate(0x900, 8), None);
    assert_eq!(u.watermark, before.watermark);
    assert_eq!(u.allocate(0x10, 0x1000), None);
    assert_eq!(u.watermark, 0x1800);
    assert_eq!(u.allocate(0x800, 8), Some(0x1800));
    assert_eq!(u.watermark, 0x2000);
}

#[test]
fn new_page_is_zeroed() {
    let mut u = UntypedHalf::bootstrap(0x10, 0x2000);
    let p = PageHalf::new(&mut u).unwrap();
    assert_eq!(p.start_paddr(), 0x1000);
    assert_eq!(p.data.len(), BASE_PAGE_LENGTH);
    assert!(p.data.iter().all(|b| *b == 0));
    assert_eq!(PageHalf::length(), 4096);
    assert_eq!(u.watermark, 0x2000);
    assert!(PageHalf::new(&mut u).is_none());
    assert_eq!(u.watermark, 0x2000);
}

#[test]
fn retype_yields_zeroed_objects() {
    let mut k = booted();
    let u = 1usize;
    for kind in [CapKind::CPool, CapKind::Task, CapKind::Channel, CapKind::RawPage, CapKind::TaskBufferPage, CapKind::TopPageTable] {
        let c = k.retype(u, kind).unwrap();
        assert_eq!(c.kind(), Some(kind));
        match c {
            CapabilityUnion::CapabilityPool(i) => assert!(k.cpools[i].object.slots.iter().all(|s| *s == CapabilityUnion::Empty)),
            CapabilityUnion::Task(i) => {
                assert_eq!(k.tasks[i].status, TaskStatus::Inactive);
                assert_eq!(k.tasks[i].instruction_pointer, 0);
                assert!(k.tasks[i].cpool.is_none());
            },
            CapabilityUnion::Channel(i) => assert_eq!(k.channels[i].slot, None),
            CapabilityUnion::RawPage(i) => assert!(k.pages[i].data.iter().all(|b| *b == 0)),
            CapabilityUnion::TaskBufferPage(i) => assert!(k.buffers[i].call.is_none()),
            CapabilityUnion::TopPageTable(i) => assert!(k.tables[i].mappings.is_empty()),
            _ => panic!("unexpected capability"),
        }
    }
    assert_eq!(k.retype(u, CapKind::Untyped), None);
}

#[test]
fn retype_without_room_changes_nothing() {
    let mut k = Kernel::bootstrap(&vec![(0x0, 0x1800)]).unwrap().0;
    assert_eq!(k.untypeds[0].watermark, 0x1000);
    assert_eq!(k.retype(0, CapKind::RawPage), None);
    assert_eq!(k.untypeds[0].watermark, 0x1000);
    assert_eq!(k.pages.len(), 0);
    assert_eq!(k.retype(0, CapKind::Channel), Some(CapabilityUnion::Channel(0)));
}

#[test]
fn pool_from_untyped() {
    let mut u = UntypedHalf::bootstrap(0x3, 0x2000);
    let p = CapabilityPoolCapability::from_untyped(&mut u).unwrap();
    assert_eq!(p.start_addr, 0x8);
    assert_eq!(p.physical_start_addr, 0x3);
    assert_eq!(u.watermark, 0x8 + 4096);
    assert!(p.object.slots.iter().all(|s| *s == CapabilityUnion::Empty));
    let mut small = UntypedHalf::bootstrap(0, 100);
    assert!(CapabilityPoolCapability::from_untyped(&mut small).is_none());
    assert_eq!(small.watermark, 0);
}

#[test]
fn upgrade_requires_the_exact_kind() {
    let mut p = CapabilityPool::new();
    assert!(p.downgrade_at(CapabilityUnion::Task(3), 7));
    assert_eq!(p.upgrade(7, CapKind::Task), Some(CapabilityUnion::Task(3)));
    assert_eq!(p.upgrade(7, CapKind::Channel), None);
    assert_eq!(p.upgrade(8, CapKind::Task), None);
    assert_eq!(p.upgrade(POOL_SLOTS, CapKind::Task), None);
    assert_eq!(p.upgrade_any(7), Some(CapabilityUnion::Task(3)));
    assert_eq!(p.upgrade_any(8), None);
}

#[test]
fn downgrade_at_keeps_the_occupant() {
    let mut p = CapabilityPool::new();
    assert!(p.downgrade_at(CapabilityUnion::Channel(1), 5));
    assert!(!p.downgrade_at(CapabilityUnion::Task(2), 5));
    assert_eq!(p.slots[5], CapabilityUnion::Channel(1));
    assert!(!p.downgrade_at(CapabilityUnion::Task(2), POOL_SLOTS));
}

#[test]
fn downgrade_free_takes_the_first_empty_slot() {
    let mut p = CapabilityPool::new();
    assert!(p.downgrade_at(CapabilityUnion::Channel(0), 0));
    assert!(p.downgrade_at(CapabilityUnion::Channel(0), 2));
    assert_eq!(p.downgrade_free(CapabilityUnion::Task(9)), Some(1));
    assert_eq!(p.downgrade_free(CapabilityUnion::Task(9)), Some(3));
    for _ in 4..POOL_SLOTS {
        assert!(p.downgrade_free(CapabilityUnion::RawPage(0)).is_some());
    }
    assert_eq!(p.downgrade_free(CapabilityUnion::Task(1)), None);
    assert_eq!(p.slots[1], CapabilityUnion::Task(9));
}

#[test]
fn list_shows_occupied_slots_in_order() {
    let mut p = CapabilityPool::new();
    p.downgrade_at(CapabilityUnion::Channel(4), 9);
    p.downgrade_at(CapabilityUnion::CapabilityPool(0), 0);
    assert_eq!(p.list(), vec![(0, CapabilityUnion::CapabilityPool(0)), (9, CapabilityUnion::Channel(4))]);
}

#[test]
fn as_untyped_memory_picks_untyped() {
    assert_eq!(CapabilityUnion::as_untyped_memory(CapabilityUnion::UntypedMemory(4)), Some(4));
    assert_eq!(CapabilityUnion::as_untyped_memory(CapabilityUnion::Task(4)), None);
    assert_eq!(CapabilityUnion::as_untyped_memory(CapabilityUnion::Empty), None);
}

#[test]
fn channel_put_then_take() {
    let mut u = UntypedHalf::bootstrap(0, 0x100);
    let mut c = ChannelHalf::new(&mut u).unwrap();
    assert_eq!(c.take(), None);
    c.put(7);
    assert_eq!(c.take(), Some(7));
    assert_eq!(c.take(), None);
    c.put(1);
    c.put(2);
    assert_eq!(c.take(), Some(2));
    assert_eq!(c.take(), None);
}

#[test]
fn status_transitions_follow_the_table() {
    assert_eq!(next_status(TaskStatus::Inactive, TaskEvent::SetActive), TaskStatus::Active);
    assert_eq!(next_status(TaskStatus::Active, TaskEvent::SetInactive), TaskStatus::Inactive);
    assert_eq!(next_status(TaskStatus::Active, TaskEvent::ChannelTake(3)), TaskStatus::ChannelWait(3));
    assert_eq!(next_status(TaskStatus::ChannelWait(3), TaskEvent::ValueDelivered), TaskStatus::Active);
    assert_eq!(next_status(TaskStatus::Inactive, TaskEvent::ChannelTake(3)), TaskStatus::Inactive);
    assert_eq!(next_status(TaskStatus::ChannelWait(3), TaskEvent::SetActive), TaskStatus::ChannelWait(3));
    assert_eq!(next_status(TaskStatus::ChannelWait(3), TaskEvent::SetInactive), TaskStatus::ChannelWait(3));
    assert_eq!(next_status(TaskStatus::Inactive, TaskEvent::ValueDelivered), TaskStatus::Inactive);
    assert_eq!(next_status(TaskStatus::Active, TaskEvent::SetActive), TaskStatus::Active);
}

#[test]
fn bootstrap_picks_the_largest_region() {
    let regions = vec![(0x0, 0x2000), (0x10000, 0x8000), (0x20000, 0x1000), (0x30000, 0x8000)];
    let (k, target) = Kernel::bootstrap(&regions).unwrap();
    assert_eq!(target, 1);
    assert_eq!(k.untypeds.len(), 4);
    assert_eq!(k.cpools[0].object.slots[0], CapabilityUnion::CapabilityPool(0));
    for i in 0..4 {
        assert_eq!(k.cpools[0].object.slots[i + 1], CapabilityUnion::UntypedMemory(i));
    }
    assert_eq!(k.cpools[0].object.slots[5], CapabilityUnion::Empty);
    assert!(Kernel::bootstrap(&Vec::new()).is_none());
    assert!(Kernel::bootstrap(&vec![(0x0, 0x10)]).is_none());
}

#[test]
fn boot_with_two_regions() {
    let mut k = booted();
    let root = &k.cpools[0].object;
    assert_eq!(root.slots[0], CapabilityUnion::CapabilityPool(0));
    assert!(root.slots.iter().any(|s| *s == CapabilityUnion::UntypedMemory(1)));
    assert_eq!(k.untypeds[1].length, 0x800000);
    assert_eq!(k.tasks.len(), 1);
    assert_eq!(k.tasks[0].status, TaskStatus::Active);
    assert_eq!(k.tasks[0].instruction_pointer, 0x400000);
    assert_eq!(k.tasks[0].stack_pointer, 0x80000000 + 4 * 4096 - 4);
    assert!(k.tasks[0].start_paddr >= 0x1000000);
    assert_eq!(k.tasks[0].cpool, Some(0));
    assert!(matches!(root.slots[KEYBOARD_CHANNEL_SLOT], CapabilityUnion::Channel(_)));
    assert!(matches!(root.slots[UTILITY_CHANNEL_SLOT], CapabilityUnion::Channel(_)));
    assert!(matches!(root.slots[CHILD_BUFFER_SLOT], CapabilityUnion::TaskBufferPage(_)));
    let table = k.tasks[0].top_page_table.unwrap();
    let b = k.tasks[0].buffer.unwrap();
    assert!(k.tables[table].mappings.contains(&(RINIT_BUFFER_VADDR, CapabilityUnion::TaskBufferPage(b))));
    assert!(k.poll_task(0));
}

#[test]
fn boot_loads_segments() {
    let image: Vec<u8> = (0..6000u32).map(|i| (i % 251) as u8).collect();
    let seg = Segment { progtype: PT_LOAD, vaddr: 0x400000, offset: 100, filesz: 5000, memsz: 5000 };
    let note = Segment { progtype: 4, vaddr: 0, offset: 0, filesz: 1, memsz: 2 };
    let k = Kernel::boot(&two_regions(), &image, 0x400000, &vec![note, seg]).unwrap();
    let table = k.tasks[0].top_page_table.unwrap();
    let ms = &k.tables[table].mappings;
    assert_eq!(ms[0].0, 0x400000);
    assert_eq!(ms[1].0, 0x401000);
    let p0 = match ms[0].1 { CapabilityUnion::RawPage(i) => i, _ => panic!("not a page") };
    let p1 = match ms[1].1 { CapabilityUnion::RawPage(i) => i, _ => panic!("not a page") };
    assert_eq!(k.pages[p0].data[0], image[100]);
    assert_eq!(k.pages[p0].data[4095], image[100 + 4095]);
    assert_eq!(k.pages[p1].data[0], image[100 + 4096]);
    assert_eq!(k.pages[p1].data[5000 - 4096 - 1], image[100 + 4999]);
    assert_eq!(k.pages[p1].data[5000 - 4096], 0);
}

#[test]
fn boot_rejects_bad_segments() {
    let image = vec![0u8; 100];
    let stretched = Segment { progtype: PT_LOAD, vaddr: 0x400000, offset: 0, filesz: 10, memsz: 20 };
    assert!(Kernel::boot(&two_regions(), &image, 0, &vec![stretched]).is_none());
    let outside = Segment { progtype: PT_LOAD, vaddr: 0x400000, offset: 90, filesz: 20, memsz: 20 };
    assert!(Kernel::boot(&two_regions(), &image, 0, &vec![outside]).is_none());
    assert!(Kernel::boot(&Vec::new(), &image, 0, &Vec::new()).is_none());
}

fn issue(k: &mut Kernel, t: usize, call: SystemCall) -> SyscallOutcome {
    let b = k.tasks[t].buffer.unwrap();
    k.buffers[b].call = Some(call);
    k.handle_exception(t, Exception::SystemCall)
}

#[test]
fn channel_put_wakes_a_parked_task() {
    let mut k = booted();
    issue(&mut k, 0, SystemCall::ChannelTake { channel_index: 254, response: None });
    let kb = k.keyboard.unwrap();
    assert_eq!(k.tasks[0].status, TaskStatus::ChannelWait(kb));
    assert!(!k.poll_task(0));
    k.handle_system_call(0, 0, SystemCall::ChannelPut { channel_index: 254, value: 0x41 });
    assert_eq!(k.channels[kb].slot, Some(0x41));
    assert!(k.poll_task(0));
    assert_eq!(k.tasks[0].status, TaskStatus::Active);
    let b = k.tasks[0].buffer.unwrap();
    match k.buffers[b].call {
        Some(SystemCall::ChannelTake { channel_index, response }) => {
            assert_eq!(channel_index, 254);
            assert_eq!(response, Some(0x41));
        },
        _ => panic!("no pending take"),
    }
    assert_eq!(k.channels[kb].slot, None);
}

#[test]
fn keyboard_interrupt_wakes_a_parked_task() {
    let mut k = booted();
    issue(&mut k, 0, SystemCall::ChannelTake { channel_index: 254, response: None });
    k.handle_exception(0, Exception::Keyboard(0x1e));
    assert!(k.poll_task(0));
    let b = k.tasks[0].buffer.unwrap();
    assert!(matches!(k.buffers[b].call, Some(SystemCall::ChannelTake { channel_index: 254, response: Some(0x1e) })));
}

#[test]
fn take_on_a_non_channel_is_ignored() {
    let mut k = booted();
    issue(&mut k, 0, SystemCall::ChannelTake { channel_index: 0, response: None });
    assert_eq!(k.tasks[0].status, TaskStatus::Active);
    issue(&mut k, 0, SystemCall::ChannelTake { channel_index: 300, response: None });
    assert_eq!(k.tasks[0].status, TaskStatus::Active);
}

#[test]
fn retype_and_drive_a_second_task() {
    let mut k = booted();
    issue(&mut k, 0, SystemCall::RetypeTask { src_index: 2, dst_index: 100 });
    assert_eq!(k.tasks.len(), 2);
    assert_eq!(k.cpools[0].object.slots[100], CapabilityUnion::Task(1));
    issue(&mut k, 0, SystemCall::TaskSetInstructionPointer { task_index: 100, vaddr: 0x1234 });
    issue(&mut k, 0, SystemCall::TaskSetStackPointer { task_index: 100, vaddr: 0x5678 });
    issue(&mut k, 0, SystemCall::TaskSetCPool { task_index: 100, cpool_index: 0 });
    issue(&mut k, 0, SystemCall::TaskSetBuffer { task_index: 100, buffer_index: CHILD_BUFFER_SLOT });
    assert_eq!(k.tasks[1].instruction_pointer, 0x1234);
    assert_eq!(k.tasks[1].stack_pointer, 0x5678);
    assert_eq!(k.tasks[1].cpool, Some(0));
    assert!(k.tasks[1].buffer.is_some());
    assert!(!k.poll_task(1));
    issue(&mut k, 0, SystemCall::TaskSetActive { task_index: 100 });
    assert_eq!(k.tasks[1].status, TaskStatus::Active);
    assert!(k.poll_task(1));
    issue(&mut k, 0, SystemCall::TaskSetInactive { task_index: 100 });
    assert_eq!(k.tasks[1].status, TaskStatus::Inactive);
    issue(&mut k, 0, SystemCall::RetypeCPool { src_index: 2, dst_index: 100 });
    assert_eq!(k.cpools.len(), 2);
    assert_eq!(k.cpools[0].object.slots[100], CapabilityUnion::Task(1));
    issue(&mut k, 0, SystemCall::RetypeCPool { src_index: 2, dst_index: 101 });
    assert_eq!(k.cpools[0].object.slots[101], CapabilityUnion::CapabilityPool(2));
}

#[test]
fn bad_operands_change_nothing() {
    let mut k = booted();
    let tasks = k.tasks.len();
    let pools = k.cpools.len();
    issue(&mut k, 0, SystemCall::RetypeTask { src_index: 0, dst_index: 100 });
    issue(&mut k, 0, SystemCall::TaskSetActive { task_index: 2 });
    issue(&mut k, 0, SystemCall::TaskSetCPool { task_index: 0, cpool_index: 1 });
    issue(&mut k, 0, SystemCall::ChannelPut { channel_index: 0, value: 1 });
    assert_eq!(k.tasks.len(), tasks);
    assert_eq!(k.cpools.len(), pools);
    assert_eq!(k.tasks[0].cpool, Some(0));
    assert_eq!(k.cpools[0].object.slots[100], CapabilityUnion::Empty);
}

#[test]
fn print_and_list_are_handed_back() {
    let mut k = booted();
    let mut bytes = [0u8; 32];
    bytes[0] = b'h';
    bytes[1] = b'i';
    match issue(&mut k, 0, SystemCall::Print { bytes, len: 2 }) {
        SyscallOutcome::Print { bytes: out, len } => {
            assert_eq!(len, 2);
            assert_eq!(&out[..2], b"hi");
        },
        _ => panic!("no print"),
    }
    match issue(&mut k, 0, SystemCall::CPoolListDebug) {
        SyscallOutcome::PoolList(l) => {
            assert_eq!(l[0], (0, CapabilityUnion::CapabilityPool(0)));
            assert_eq!(l[1], (1, CapabilityUnion::UntypedMemory(0)));
            assert_eq!(l.last(), Some(&(255, k.cpools[0].object.slots[255])));
        },
        _ => panic!("no list"),
    }
}

#[test]
fn inactive_task_is_skipped() {
    let mut k = booted();
    k.handle_system_call(0, 0, SystemCall::RetypeTask { src_index: 2, dst_index: 100 });
    assert_eq!(k.tasks[1].status, TaskStatus::Inactive);
    assert!(!k.poll_task(1));
    k.handle_system_call(0, 0, SystemCall::TaskSetInactive { task_index: 0 });
    assert_eq!(k.tasks[0].status, TaskStatus::Active);
    assert!(matches!(k.handle_exception(0, Exception::Other), SyscallOutcome::Done));
}

#[test]
fn boot_places_objects_in_the_largest_region() {
    let k = booted();
    let table = k.tasks[0].top_page_table.unwrap();
    assert_eq!(k.tables[table].start_paddr, 0x1000000);
    let b = k.tasks[0].buffer.unwrap();
    assert_eq!(k.buffers[b].start_paddr, 0x1000000 + 9 * 4096);
    assert_eq!(k.buffers[b + 1].start_paddr, 0x1000000 + 10 * 4096);
    assert_eq!(k.tasks[0].start_paddr, 0x1000000 + 11 * 4096);
    assert_eq!(k.untypeds[1].watermark, 0x1000000 + 11 * 4096 + 128 + 32);
    assert_eq!(k.untypeds[0].watermark, 0x100000 + 4096);
    for q in 0..8 {
        assert_eq!(k.pages[q].start_paddr, 0x1000000 + (1 + q) * 4096);
    }
    let root = &k.cpools[0].object;
    assert_eq!(root.slots[3], CapabilityUnion::TopPageTable(0));
    for q in 0..8 {
        assert_eq!(root.slots[4 + q], CapabilityUnion::RawPage(q));
    }
    assert_eq!(root.slots[12], CapabilityUnion::TaskBufferPage(0));
    assert_eq!(root.slots[13], CapabilityUnion::TaskBufferPage(1));
    assert_eq!(root.slots[14], CapabilityUnion::Empty);
    assert_eq!(root.slots[CHILD_BUFFER_SLOT], CapabilityUnion::TaskBufferPage(1));
    let kb = k.keyboard.unwrap();
    assert_eq!(root.slots[KEYBOARD_CHANNEL_SLOT], CapabilityUnion::Channel(kb));
    assert_eq!(root.slots[UTILITY_CHANNEL_SLOT], CapabilityUnion::Channel(kb + 1));
}

#[test]
fn boot_needs_room_for_every_page() {
    // Eleven pages for the address space and one for the task and channels.
    let exact = vec![(0x0, 0x2000), (0x100000, 12 * 4096)];
    assert!(Kernel::boot(&exact, &Vec::new(), 0, &Vec::new()).is_some());
    let short = vec![(0x0, 0x2000), (0x100000, 11 * 4096)];
    assert!(Kernel::boot(&short, &Vec::new(), 0, &Vec::new()).is_none());
}

#[test]
fn map_rinit_stack_carves_consecutive_pages() {
    let mut k = Kernel::bootstrap(&vec![(0x0, 0x100000)]).unwrap().0;
    let table = match k.retype(0, CapKind::TopPageTable) {
        Some(CapabilityUnion::TopPageTable(t)) => t,
        _ => panic!("no table"),
    };
    let w = k.untypeds[0].watermark;
    assert!(k.map_rinit_stack(0x80000000, 3, 0, 0, table));
    for i in 0..3 {
        assert_eq!(k.pages[i].start_paddr, w + i * 4096);
        assert_eq!(k.cpools[0].object.slots[2 + i], CapabilityUnion::RawPage(i));
        assert_eq!(k.tables[table].mappings[i], (0x80000000 + i * 4096, CapabilityUnion::RawPage(i)));
    }
    assert_eq!(k.untypeds[0].watermark, w + 3 * 4096);
    let mut small = Kernel::bootstrap(&vec![(0x0, 0x2800)]).unwrap().0;
    let t = match small.retype(0, CapKind::TopPageTable) {
        Some(CapabilityUnion::TopPageTable(t)) => t,
        _ => panic!("no table"),
    };
    let before = small.untypeds[0].watermark;
    assert!(!small.map_rinit_stack(0x80000000, 1, 0, 0, t));
    assert_eq!(small.untypeds[0].watermark, before);
    assert!(small.pages.is_empty());
}
