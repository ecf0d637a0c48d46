use flow_kernel::driver::BoundedUsize;
use flow_kernel::exception::{
    is_local_irq_masked, local_irq_mask, local_irq_mask_save, local_irq_restore, local_irq_unmask,
};
use flow_kernel::time::{
    max_duration, resolution, spin_for, uptime_kernel, uptime_sys, Duration, KernelTimerData,
    TimeManager,
};

#[test]
fn ticks_become_durations() {
    let data = KernelTimerData::new(62_500_000, 1_000);
    assert_eq!(resolution(&data), Duration { secs: 0, nanos: 16 });
    assert_eq!(uptime_sys(&data, 0), Duration { secs: 0, nanos: 0 });
    assert_eq!(uptime_sys(&data, 62_500_000), Duration { secs: 1, nanos: 0 });
    assert_eq!(uptime_sys(&data, 93_750_000), Duration { secs: 1, nanos: 500_000_000 });
    assert_eq!(uptime_kernel(&data, 62_501_000), Duration { secs: 1, nanos: 0 });
    // the counter has wrapped since the kernel started
    assert_eq!(uptime_kernel(&data, 999), Duration { secs: 295_147_905_179, nanos: 352_825_840 });
    assert_eq!(max_duration(&data), Duration { secs: 295_147_905_179, nanos: 352_825_840 });
    assert_eq!(data.duration_of(1), Duration { secs: 0, nanos: 16 });
}

#[test]
fn durations_become_ticks() {
    let data = KernelTimerData::new(62_500_000, 0);
    assert_eq!(data.ticks_of(Duration { secs: 0, nanos: 15 }), Ok(0));
    assert_eq!(data.ticks_of(Duration { secs: 0, nanos: 16 }), Ok(1));
    assert_eq!(data.ticks_of(Duration { secs: 2, nanos: 500_000_000 }), Ok(156_250_000));
    assert_eq!(
        data.ticks_of(Duration { secs: 295_147_905_180, nanos: 0 }),
        Err("duration too large")
    );
    assert_eq!(spin_for(&data, 100, Duration { secs: 1, nanos: 0 }), Some(62_500_100));
    assert_eq!(spin_for(&data, u64::MAX, Duration { secs: 0, nanos: 32 }), Some(1));
    assert_eq!(spin_for(&data, 100, Duration { secs: 295_147_905_180, nanos: 0 }), None);
    assert!(Duration { secs: 1, nanos: 5 }.shorter_than(&Duration { secs: 1, nanos: 6 }));
    assert!(!Duration { secs: 2, nanos: 0 }.shorter_than(&Duration { secs: 1, nanos: 6 }));
    assert_eq!(Duration { secs: 2, nanos: 7 }.as_nanos(), 2_000_000_007);
}

#[test]
fn time_manager_uses_its_data() {
    let clock = TimeManager::new(KernelTimerData::new(1_000_000, 500));
    assert_eq!(clock.resolution(), Duration { secs: 0, nanos: 1_000 });
    assert_eq!(clock.uptime_sys(2_500_000), Duration { secs: 2, nanos: 500_000_000 });
    assert_eq!(clock.uptime_kernel(2_500_500), Duration { secs: 2, nanos: 500_000_000 });
    assert_eq!(clock.spin_for(7, Duration { secs: 0, nanos: 3_000 }), Some(10));
}

#[test]
fn bounded_numbers_keep_their_bound() {
    let number = BoundedUsize::<15>::new(7);
    assert_eq!(number.get(), 7);
    assert!(BoundedUsize::<15>::try_new(15).is_some());
    assert!(BoundedUsize::<15>::try_new(16).is_none());
}

#[test]
fn critical_section_masks_and_restores() {
    let daif: u64 = 0x340;
    assert!(!is_local_irq_masked(daif));
    let (saved, masked) = local_irq_mask_save(daif);
    assert_eq!(saved, 0x340);
    assert_eq!(masked, 0x3c0);
    assert!(is_local_irq_masked(masked));
    assert_eq!(local_irq_restore(saved), daif);
    assert_eq!(local_irq_mask(0), 0x80);
    assert_eq!(local_irq_unmask(0x3c0), 0x340);
    // a section inside a section restores the masked state
    let (inner_saved, inner_masked) = local_irq_mask_save(masked);
    assert_eq!(inner_masked, masked);
    assert!(is_local_irq_masked(local_irq_restore(inner_saved)));
}
