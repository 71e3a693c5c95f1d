use std::sync::Arc;

use helix_picker::picker::{Column, Generation, Picker};
use nucleo::pattern::{CaseMatching, Normalization};
use nucleo::{Config, Nucleo};

fn settle(matcher: &mut Nucleo<String>) {
    loop {
        let status = matcher.tick(10);
        if !status.running && !status.changed {
            break;
        }
    }
}

fn retype(picker: &mut Picker, matcher: &mut Nucleo<String>, line: &str) -> Vec<bool> {
    let updates = picker.handle_prompt_change(line);
    for (i, u) in updates.iter().enumerate() {
        matcher.pattern.reparse(i, &u.pattern, CaseMatching::Smart, Normalization::Smart, u.append);
    }
    settle(matcher);
    let matched = matcher.snapshot().matched_item_count();
    picker.tick(true, matched);
    updates.iter().map(|u| u.append).collect()
}

#[test]
fn typing_narrows_ten_thousand_items() {
    let mut matcher: Nucleo<String> = Nucleo::new(Config::DEFAULT, Arc::new(|| {}), Some(1), 1);
    let mut picker = Picker::new(vec![Column::new("name".to_string())], 0, Generation::new());
    let injector = matcher.injector();
    let gate = picker.injector();
    for i in 0..10_000u32 {
        assert!(gate.push().is_ok());
        injector.push(format!("item{}", i), |item, row| row[0] = item.as_str().into());
    }
    settle(&mut matcher);
    assert_eq!(matcher.snapshot().item_count(), 10_000);
    assert_eq!(matcher.snapshot().matched_item_count(), 10_000);

    picker.to_end(10_000);
    assert_eq!(retype(&mut picker, &mut matcher, "9"), vec![true]);
    let first = matcher.snapshot().matched_item_count();
    assert!(first < 10_000 && first > 0);
    assert!(picker.cursor < first);

    assert_eq!(retype(&mut picker, &mut matcher, "99"), vec![true]);
    let second = matcher.snapshot().matched_item_count();
    assert!(second <= first && second > 0);
    assert!(picker.cursor < second);

    assert_eq!(retype(&mut picker, &mut matcher, "999"), vec![true]);
    let third = matcher.snapshot().matched_item_count();
    assert!(third <= second && third > 0);

    assert_eq!(retype(&mut picker, &mut matcher, "99"), vec![false]);
    assert_eq!(matcher.snapshot().matched_item_count(), second);
}
