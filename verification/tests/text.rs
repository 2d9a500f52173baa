use stax::probe_match::{
    abs_tick_delta_ns, elapsed_ticks_to_ns, elapsed_ticks_to_ns_if_set, logical_probe_stack,
    longest_common_run, mach_timebase_numer_denom, ticks_to_ns,
};
use stax::sort::{ascending_key, descending_key, sort_by_keys, stable_order};
use stax::text::{
    clone_opt_text, dec_string, hex_string, opt_text_may_precede, push_hex_prefixed, same_opt_text,
    same_text,
};
use stax::wire::{read_u32, read_u64, write_u32, write_u64};

#[test]
fn numbers_are_written_out() {
    assert_eq!(dec_string(0), "0");
    assert_eq!(dec_string(u64::MAX), "18446744073709551615");
    assert_eq!(hex_string(0xbeef), "0xbeef");
    let mut s = "at ".to_owned();
    push_hex_prefixed(&mut s, 0x1f);
    assert_eq!(s, "at 0x1f");
}

#[test]
fn texts_are_compared() {
    assert!(same_text("abc", "abc") && !same_text("abc", "abd") && !same_text("ab", "abc"));
    let a = Some("a".to_owned());
    assert!(same_opt_text(&a, &clone_opt_text(&a)) && !same_opt_text(&a, &None));
    assert!(opt_text_may_precede(&None, &a) && !opt_text_may_precede(&a, &None));
    assert!(opt_text_may_precede(&a, &Some("b".to_owned())));
}

#[test]
fn sorting_is_stable() {
    let keys: Vec<_> = [3u64, 1, 3, 2].iter().map(|k| ascending_key(*k)).collect();
    assert_eq!(stable_order(&keys), [1, 3, 0, 2]);
    assert_eq!(sort_by_keys(vec!["a", "b", "c", "d"], &keys), ["b", "d", "a", "c"]);
    let down: Vec<_> = [3u64, 1, 3, 2].iter().map(|k| descending_key(*k)).collect();
    assert_eq!(stable_order(&down), [0, 2, 3, 1]);
}

#[test]
fn words_are_read_as_they_were_written() {
    let mut buf = vec![0u8; 16];
    write_u64(&mut buf, 3, 0x0102_0304_0506_0708);
    write_u32(&mut buf, 12, 0xdead_beef);
    assert_eq!(read_u64(&buf, 3), 0x0102_0304_0506_0708);
    assert_eq!(read_u32(&buf, 12), 0xdead_beef);
    assert_eq!(buf[3], 8);
}

#[test]
fn ticks_are_turned_into_time() {
    let tb = mach_timebase_numer_denom(125, 3);
    assert_eq!(ticks_to_ns(tb, 24), 1000);
    assert_eq!(ticks_to_ns(tb, -24), -1000);
    assert_eq!(elapsed_ticks_to_ns(tb, 30, 6), 1000);
    assert_eq!(elapsed_ticks_to_ns(tb, 6, 30), 0);
    assert_eq!(elapsed_ticks_to_ns_if_set(tb, 30, 0), 0);
    assert_eq!(abs_tick_delta_ns(tb, 6, 30), 1000);
    assert_eq!(mach_timebase_numer_denom(7, 0).numer, 1);
}

#[test]
fn stacks_are_compared_by_runs() {
    assert_eq!(longest_common_run(&[1, 2, 3, 4], &[9, 2, 3, 4, 8]), 3);
    assert_eq!(longest_common_run(&[], &[1]), 0);
    assert_eq!(logical_probe_stack(1, 0, &[2, 3]), [1, 2, 3]);
}
