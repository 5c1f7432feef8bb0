use hwrng::listing::{info, list};
use hwrng::reading::{hex_encode, open_failed, output_failed, read_failed, Session};
use hwrng::switching::{switch_report, switch_step, switch_target, SwitchStep};
use hwrng::sysfs::IoFailure;
use hwrng::watching::{invalid_interval, write_failed, WatchStep, Watcher};

fn ok(s: &str) -> Result<String, String> {
    Ok(s.to_string())
}

fn bad(s: &str) -> Result<String, String> {
    Err(s.to_string())
}

fn queries(xs: &[&str]) -> Vec<String> {
    xs.iter().map(|s| s.to_string()).collect()
}

fn denied() -> IoFailure {
    IoFailure { permission_denied: true, text: "Permission denied (os error 13)".to_string() }
}

fn busy() -> IoFailure {
    IoFailure { permission_denied: false, text: "Device busy".to_string() }
}

#[test]
fn switch_resolves_against_what_is_available() {
    let found = switch_target(&ok("tpm-rng-0 infnoise-1\n"), &queries(&["x", "inf"])).unwrap();
    assert_eq!(found.name, "infnoise-1");
    assert_eq!(found.notice, None);
    assert_eq!(
        switch_target(&bad("gone"), &queries(&["x"])).unwrap_err(),
        "failed to read /sys/class/misc/hw_random/rng_available: gone"
    );
    assert_eq!(
        switch_target(&ok("a b"), &queries(&["x"])).unwrap_err(),
        "no rng matches 'x'. available: a, b"
    );
}

#[test]
fn switch_writes_only_what_is_not_active() {
    match switch_step("tpm-rng-0", &ok("tpm-rng-0\n")) {
        SwitchStep::Done { message } => assert_eq!(message, "hwrng already set to tpm-rng-0"),
        step => panic!("{step:?}"),
    }
    match switch_step("tpm-rng-0", &ok("none\n")) {
        SwitchStep::Write { current } => assert_eq!(current, "none"),
        step => panic!("{step:?}"),
    }
    match switch_step("tpm-rng-0", &bad("gone")) {
        SwitchStep::Write { current } => assert_eq!(current, ""),
        step => panic!("{step:?}"),
    }
}

#[test]
fn switch_reports_what_came_of_it() {
    assert_eq!(switch_report("a", "b", &Ok(())).unwrap(), "switched hwrng: a -> b");
    assert_eq!(
        switch_report("a", "b", &Err(denied())).unwrap_err(),
        "writing rng_current requires root (try sudo): Permission denied (os error 13)"
    );
    assert_eq!(
        switch_report("a", "b", &Err(busy())).unwrap_err(),
        "failed to write rng_current: Device busy"
    );
}

fn hold_log(step: WatchStep) -> Option<String> {
    match step {
        WatchStep::Hold { log } => log,
        step => panic!("{step:?}"),
    }
}

fn switch_to(step: WatchStep) -> (String, Option<String>) {
    match step {
        WatchStep::Switch { target, log } => (target, log),
        step => panic!("{step:?}"),
    }
}

#[test]
fn watch_follows_a_device_that_comes_and_goes() {
    let mut watcher = Watcher::new(queries(&["infnoise", "tpm"]));
    assert_eq!(
        watcher.banner("2"),
        "hwrng: watching for [infnoise, tpm], polling every 2s (Ctrl-C to stop)"
    );
    // Only the second choice is there, and it is not active.
    let step = watcher.observe(&ok("tpm-rng-0 intel\n"), &ok("intel\n")).unwrap();
    assert_eq!(
        switch_to(step),
        ("tpm-rng-0".to_string(), Some("hwrng: switching intel -> tpm-rng-0".to_string()))
    );
    // The write had no effect: the switch is tried again, without a word.
    let step = watcher.observe(&ok("tpm-rng-0 intel\n"), &ok("intel\n")).unwrap();
    assert_eq!(switch_to(step), ("tpm-rng-0".to_string(), None));
    // Now it has.
    let step = watcher.observe(&ok("tpm-rng-0 intel\n"), &ok("tpm-rng-0\n")).unwrap();
    assert_eq!(
        hold_log(step).as_deref(),
        Some("hwrng: [infnoise, tpm] active as tpm-rng-0")
    );
    let step = watcher.observe(&ok("tpm-rng-0 intel\n"), &ok("tpm-rng-0\n")).unwrap();
    assert_eq!(hold_log(step), None);
    // The first choice appears.
    let step = watcher.observe(&ok("tpm-rng-0 infnoise-1\n"), &ok("tpm-rng-0\n")).unwrap();
    assert_eq!(switch_to(step).0, "infnoise-1");
    // Everything goes away.
    let step = watcher.observe(&ok("\n"), &bad("gone")).unwrap();
    assert_eq!(
        hold_log(step).as_deref(),
        Some("hwrng: no rng matches [infnoise, tpm] (current: )")
    );
    assert_eq!(
        watcher.observe(&bad("gone"), &ok("x")).unwrap_err(),
        "failed to read /sys/class/misc/hw_random/rng_available: gone"
    );
    // A failed reading leaves the last state as it was.
    let step = watcher.observe(&ok("\n"), &bad("gone")).unwrap();
    assert_eq!(hold_log(step), None);
}

#[test]
fn watch_takes_states_that_are_spelled_alike_for_the_same() {
    let mut watcher = Watcher::new(queries(&["c", "b"]));
    let step = watcher.observe(&ok("c"), &ok("a->b")).unwrap();
    assert_eq!(switch_to(step), ("c".to_string(), Some("hwrng: switching a->b -> c".to_string())));
    let step = watcher.observe(&ok("b->c"), &ok("a")).unwrap();
    assert_eq!(switch_to(step), ("b->c".to_string(), None));
}

#[test]
fn watch_logs_a_new_target_for_the_same_active_rng() {
    let mut watcher = Watcher::new(queries(&["c", "b"]));
    let step = watcher.observe(&ok("b"), &ok("a")).unwrap();
    assert_eq!(switch_to(step).0, "b");
    let step = watcher.observe(&ok("b c"), &ok("a")).unwrap();
    assert_eq!(switch_to(step), ("c".to_string(), Some("hwrng: switching a -> c".to_string())));
}

#[test]
fn watch_refuses_an_interval_in_words() {
    assert_eq!(invalid_interval("-1"), "invalid --interval -1: must be > 0");
    assert_eq!(
        invalid_interval(&f64::NAN.to_string()),
        "invalid --interval NaN: must be > 0"
    );
}

#[test]
fn watch_ends_only_if_permission_is_denied() {
    assert_eq!(
        write_failed("t", true, &denied()).unwrap_err(),
        "writing rng_current requires root: Permission denied (os error 13)"
    );
    assert!(write_failed("t", false, &denied()).is_err());
    assert_eq!(
        write_failed("t", true, &busy()).unwrap().as_deref(),
        Some("hwrng: switch to t failed: Device busy")
    );
    assert_eq!(write_failed("t", false, &busy()).unwrap(), None);
}

#[test]
fn list_marks_the_active_rng() {
    assert_eq!(
        list(&ok("tpm-rng-0 intel-rng none\n"), &ok("intel-rng\n")).unwrap(),
        "  tpm-rng-0\n* intel-rng\n  none\n"
    );
    assert_eq!(list(&ok("a\n"), &bad("gone")).unwrap(), "  a\n");
    assert_eq!(list(&ok("\n"), &ok("a")).unwrap(), "");
    assert_eq!(
        list(&bad("gone"), &ok("a")).unwrap_err(),
        "failed to read /sys/class/misc/hw_random/rng_available: gone"
    );
}

#[test]
fn info_heads_each_rng() {
    let entries = info(&ok("a b c\n"), &ok("b\n"), &ok("1024\n"), &ok("1\n")).unwrap();
    let names: Vec<&str> = entries.iter().map(|e| e.name.as_str()).collect();
    let headings: Vec<&str> = entries.iter().map(|e| e.heading.as_str()).collect();
    assert_eq!(names, ["a", "b", "c"]);
    assert_eq!(
        headings,
        [
            "a\n",
            "\nb [active]\n  quality:     1024/1024 bits\n  selected:    user\n",
            "\nc\n",
        ]
    );
    let entries = info(&ok("b"), &ok("b"), &bad("gone"), &ok("0")).unwrap();
    assert_eq!(entries[0].heading, "b [active]\n  selected:    kernel default\n");
    let entries = info(&ok("b"), &ok("b"), &ok(""), &ok("7")).unwrap();
    assert_eq!(entries[0].heading, "b [active]\n  quality:     /1024 bits\n  selected:    7\n");
    let entries = info(&ok("b"), &ok("b"), &bad("gone"), &bad("gone")).unwrap();
    assert_eq!(entries[0].heading, "b [active]\n");
    assert_eq!(
        info(&bad("gone"), &ok("b"), &ok("1"), &ok("1")).unwrap_err(),
        "failed to read /sys/class/misc/hw_random/rng_available: gone"
    );
}

#[test]
fn hex_digits_are_lower_case_and_padded() {
    assert_eq!(hex_encode(&[]), b"");
    assert_eq!(hex_encode(&[0x00, 0x09, 0x0a, 0xff, 0xbe]), b"00090affbe");
    for b in 0..=255u8 {
        assert_eq!(hex_encode(&[b]), format!("{b:02x}").into_bytes());
    }
}

fn run(bytes: u64, hex: bool) -> (Vec<usize>, Vec<u8>) {
    let mut session = Session::start(bytes, hex, false).unwrap();
    let mut sizes: Vec<usize> = Vec::new();
    let mut output: Vec<u8> = Vec::new();
    let mut next: u8 = 0;
    while session.want() > 0 {
        let want = session.want();
        let mut chunk: Vec<u8> = Vec::new();
        for _ in 0..want {
            chunk.push(next);
            next = next.wrapping_add(7);
        }
        sizes.push(want);
        output.extend(session.accept(&chunk));
    }
    output.extend(session.finish());
    (sizes, output)
}

#[test]
fn reading_is_cut_into_chunks_that_do_not_show() {
    let (sizes, raw) = run(10000, false);
    assert_eq!(sizes, [4096, 4096, 1808]);
    assert_eq!(raw.len(), 10000);
    let (sizes, hex) = run(10000, true);
    assert_eq!(sizes, [4096, 4096, 1808]);
    let mut expected = hex_encode(&raw);
    expected.push(b'\n');
    assert_eq!(hex, expected);
    assert_eq!(run(4096, false).0, [4096]);
    assert_eq!(run(0, false), (vec![], vec![]));
    assert_eq!(run(0, true), (vec![], b"\n".to_vec()));
}

#[test]
fn binary_is_not_written_to_a_terminal() {
    assert_eq!(
        Session::start(1, false, true).unwrap_err(),
        "refusing to write binary to a terminal; pass --hex or redirect stdout"
    );
    assert!(Session::start(1, true, true).is_ok());
    assert!(Session::start(1, false, false).is_ok());
}

#[test]
fn reading_reports_what_failed() {
    assert_eq!(
        open_failed(&denied()),
        "opening /dev/hwrng requires root (try sudo): Permission denied (os error 13)"
    );
    assert_eq!(open_failed(&busy()), "failed to open /dev/hwrng: Device busy");
    assert_eq!(read_failed("eof"), "read from /dev/hwrng failed: eof");
    assert_eq!(output_failed("pipe"), "write to stdout failed: pipe");
}
