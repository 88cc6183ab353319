use kyute::cache::{memoize_step, CacheWriter, MemoStep, Slot};
use kyute::call_key::CallSite;

const ROOT: CallSite = CallSite { file: "cache_tests.rs", line: 1, column: 1 };
const SITE: CallSite = CallSite { file: "cache_tests.rs", line: 10, column: 5 };

/// Records, inside the current group, a value entry for the scope `index`,
/// keeping the value found again if there is one.
fn value_entry(writer: &mut CacheWriter<String>, index: usize, value: &str) -> (String, bool) {
    writer.enter_scope(&SITE, index);
    let (at, inserted) = writer.get_or_insert_entry(|| value.to_string());
    writer.exit_scope();
    match writer.slot(at) {
        Slot::Value { var, .. } => (var.clone(), inserted),
        _ => panic!("expected a value slot"),
    }
}

/// Opens a group for the scope `index`, runs `f` in it, and closes it.
fn group(writer: &mut CacheWriter<String>, index: usize, f: impl FnOnce(&mut CacheWriter<String>)) {
    writer.enter_scope(&SITE, index);
    writer.start_group();
    f(writer);
    writer.end_group();
    writer.exit_scope();
}

/// Describes a table: `(` for group starts with their length, `)` for ends,
/// values by their contents.
fn describe(slots: &[Slot<String>]) -> Vec<String> {
    slots
        .iter()
        .map(|s| match s {
            Slot::StartGroup { len, .. } => format!("({}", len),
            Slot::EndGroup => ")".to_string(),
            Slot::Value { var, .. } => var.clone(),
        })
        .collect()
}

/// A small deterministic permutation generator.
fn shuffle(items: &mut Vec<u64>, seed: &mut u64) {
    for i in (1..items.len()).rev() {
        *seed = seed.wrapping_mul(6364136223846793005).wrapping_add(1442695040888963407);
        let j = (*seed >> 33) as usize % (i + 1);
        items.swap(i, j);
    }
}

#[test]
fn test_rewrite() {
    let mut slots: Vec<Slot<String>> = Vec::new();
    let mut previous: Option<Vec<String>> = None;
    for _ in 0..3 {
        let mut writer = CacheWriter::new(&ROOT, slots);
        group(&mut writer, 99, |w| {
            value_entry(w, 1, "0");
            value_entry(w, 2, "hello world");
        });
        slots = writer.finish();
        let d = describe(&slots);
        assert_eq!(d, vec!["(6", "(4", "0", "hello world", ")", ")"]);
        if let Some(p) = &previous {
            assert_eq!(p, &d);
        }
        previous = Some(d);
    }
}

#[test]
fn test_reorder() {
    let mut slots: Vec<Slot<String>> = Vec::new();
    let mut items: Vec<u64> = vec![0, 1, 2, 3, 4, 5, 6, 7];
    let mut seed = 100u64;
    for i in 0..3 {
        let mut writer = CacheWriter::new(&ROOT, slots);
        for &item in items.iter() {
            group(&mut writer, item as usize, |w| {
                let (v, inserted) = value_entry(w, 100, &format!("{}-{}", item, i));
                // values are kept across iterations: the first one stays
                assert_eq!(inserted, i == 0);
                assert_eq!(v, format!("{}-0", item));
            });
        }
        slots = writer.finish();
        // one root group holding the eight groups in the order of this iteration
        let d = describe(&slots);
        assert_eq!(d.len(), 2 + 8 * 3);
        for (k, &item) in items.iter().enumerate() {
            assert_eq!(d[1 + 3 * k + 1], format!("{}-0", item));
        }
        shuffle(&mut items, &mut seed);
    }
}

#[test]
fn test_tagged_reorder() {
    let mut slots: Vec<Slot<String>> = Vec::new();
    let mut items: Vec<u64> = vec![0, 1, 2, 3, 4, 5, 6, 7];
    let mut seed = 7u64;
    for i in 0..3 {
        let mut writer = CacheWriter::new(&ROOT, slots);
        for &item in items.iter() {
            let (v, inserted) = value_entry(&mut writer, 100 + item as usize, &format!("{}-{}", item, i));
            assert_eq!(inserted, i == 0);
            assert_eq!(v, format!("{}-0", item));
        }
        slots = writer.finish();
        let d = describe(&slots);
        let expected: Vec<String> = items.iter().map(|item| format!("{}-0", item)).collect();
        assert_eq!(&d[1..d.len() - 1], &expected[..]);
        shuffle(&mut items, &mut seed);
    }
}

#[test]
fn test_insert_remove() {
    let mut slots: Vec<Slot<String>> = Vec::new();
    let mut seed = 10u64;
    let mut present: Vec<u64> = Vec::new();
    for i in 0..10 {
        seed = seed.wrapping_mul(6364136223846793005).wrapping_add(1442695040888963407);
        let num_items = (seed >> 33) % 10;
        let mut items: Vec<u64> = Vec::new();
        for _ in 0..num_items {
            seed = seed.wrapping_mul(6364136223846793005).wrapping_add(1442695040888963407);
            let item = (seed >> 33) % 10;
            if !items.contains(&item) {
                items.push(item);
            }
        }
        let mut writer = CacheWriter::new(&ROOT, slots);
        for &item in items.iter() {
            let (v, inserted) = value_entry(&mut writer, item as usize, &format!("{}-{}", item, i));
            assert_eq!(inserted, !present.contains(&item));
            if inserted {
                assert_eq!(v, format!("{}-{}", item, i));
            }
        }
        slots = writer.finish();
        // entries that were not produced again are removed
        assert_eq!(slots.len(), 2 + items.len());
        present = items;
    }
}

#[test]
fn skipped_group_keeps_its_items() {
    let mut slots: Vec<Slot<String>> = Vec::new();
    for i in 0..2 {
        let mut writer = CacheWriter::new(&ROOT, slots);
        writer.enter_scope(&SITE, 5);
        writer.start_group();
        if i == 0 {
            value_entry(&mut writer, 1, "a");
            value_entry(&mut writer, 2, "b");
        } else {
            writer.skip_until_end_of_group();
        }
        writer.end_group();
        writer.exit_scope();
        slots = writer.finish();
        assert_eq!(describe(&slots), vec!["(6", "(4", "a", "b", ")", ")"]);
    }
}

#[test]
fn memoized_calls_rerun_on_change_or_invalidation() {
    assert_eq!(memoize_step(false, false), MemoStep::Reuse);
    assert_eq!(memoize_step(true, false), MemoStep::Recompute);
    assert_eq!(memoize_step(false, true), MemoStep::Recompute);
    assert_eq!(memoize_step(true, true), MemoStep::Recompute);
}

#[test]
fn scopes_are_counted() {
    let mut writer: CacheWriter<String> = CacheWriter::new(&ROOT, Vec::new());
    assert_eq!(writer.scope_count(), 1);
    writer.enter_scope(&ROOT, 3);
    assert_eq!(writer.scope_count(), 2);
    writer.exit_scope();
    assert_eq!(writer.scope_count(), 1);
    let slots = writer.finish();
    assert_eq!(describe(&slots)[0], "(2");
}
