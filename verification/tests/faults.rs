use storm_core::interrupts;
use storm_core::interrupts::BootStage;
use storm_core::interrupts::FaultDisposition;
use storm_core::interrupts::FaultKind;
use storm_core::interrupts::IdtEntry;
use storm_core::interrupts::BREAKPOINT_VECTOR;
use storm_core::interrupts::DOUBLE_FAULT_IST_INDEX;
use storm_core::interrupts::DOUBLE_FAULT_VECTOR;
use storm_core::interrupts::IDT_ENTRIES;
use storm_core::interrupts::PAGE_FAULT_VECTOR;
use storm_core::qemu::QEmuExitCode;

#[test]
fn idt_binds_exactly_the_three_fault_vectors() {
    let idt = interrupts::init();
    assert_eq!(
        idt.entry(BREAKPOINT_VECTOR),
        IdtEntry::Present { handler: FaultKind::Breakpoint, stack_index: None },
    );
    assert_eq!(
        idt.entry(PAGE_FAULT_VECTOR),
        IdtEntry::Present { handler: FaultKind::PageFault, stack_index: None },
    );
    assert_eq!(
        idt.entry(DOUBLE_FAULT_VECTOR),
        IdtEntry::Present {
            handler: FaultKind::DoubleFault,
            stack_index: Some(DOUBLE_FAULT_IST_INDEX),
        },
    );
    for v in 0..IDT_ENTRIES {
        if v != BREAKPOINT_VECTOR && v != PAGE_FAULT_VECTOR && v != DOUBLE_FAULT_VECTOR {
            assert_eq!(idt.entry(v), IdtEntry::Missing);
        }
    }
}

#[test]
fn only_the_breakpoint_trap_resumes() {
    assert_eq!(interrupts::classify_fault(FaultKind::Breakpoint), FaultDisposition::Resume);
    assert_eq!(interrupts::classify_fault(FaultKind::PageFault), FaultDisposition::Fatal);
    assert_eq!(interrupts::classify_fault(FaultKind::DoubleFault), FaultDisposition::Fatal);
}

#[test]
fn boot_stages_advance_in_order_and_stay_active() {
    let s0 = BootStage::Uninitialized;
    let s1 = interrupts::next_boot_stage(s0);
    assert_eq!(s1, BootStage::GdtLoaded);
    let s2 = interrupts::next_boot_stage(s1);
    assert_eq!(s2, BootStage::IdtLoaded);
    let s3 = interrupts::next_boot_stage(s2);
    assert_eq!(s3, BootStage::Active);
    assert_eq!(interrupts::next_boot_stage(s3), BootStage::Active);
}

#[test]
fn exit_codes_match_the_debug_device_protocol() {
    assert_eq!(QEmuExitCode::Success.code(), 0x10);
    assert_eq!(QEmuExitCode::Failed.code(), 0x11);
}
