use shimguin::rules::{RuleError, RuleSet};

fn pairs(set: &RuleSet) -> Vec<(Vec<u8>, Vec<u8>)> {
    set.rules.iter().map(|r| (r.symbol.clone(), r.replacement.clone())).collect()
}

#[test]
fn parse_empty_is_empty() {
    let set = RuleSet::parse(b"").unwrap();
    assert!(set.rules.is_empty());
    assert_eq!(set.get(b"a"), None);
}

#[test]
fn parse_skips_empty_segments() {
    let set = RuleSet::parse(b"a->b,,c->d").unwrap();
    assert_eq!(pairs(&set), vec![(b"a".to_vec(), b"b".to_vec()), (b"c".to_vec(), b"d".to_vec())]);
    assert_eq!(set.get(b"a"), Some(b"b".to_vec()));
    assert_eq!(set.get(b"c"), Some(b"d".to_vec()));
    assert_eq!(set.get(b"b"), None);
}

#[test]
fn parse_without_arrow_fails() {
    assert_eq!(RuleSet::parse(b"x").err(), Some(RuleError::MalformedRule));
    assert_eq!(RuleSet::parse(b"f->g,x").err(), Some(RuleError::MalformedRule));
    assert_eq!(RuleSet::parse(b"f-g").err(), Some(RuleError::MalformedRule));
}

#[test]
fn parse_trailing_and_leading_commas() {
    let set = RuleSet::parse(b",f->f_new,").unwrap();
    assert_eq!(pairs(&set), vec![(b"f".to_vec(), b"f_new".to_vec())]);
    let set = RuleSet::parse(b",,,").unwrap();
    assert!(set.rules.is_empty());
}

#[test]
fn parse_splits_at_first_arrow() {
    let set = RuleSet::parse(b"a->b->c").unwrap();
    assert_eq!(pairs(&set), vec![(b"a".to_vec(), b"b->c".to_vec())]);
    let set = RuleSet::parse(b"->x").unwrap();
    assert_eq!(set.get(b""), Some(b"x".to_vec()));
}

#[test]
fn parse_two_rules() {
    let set = RuleSet::parse(b"f->f_new,g->g_new").unwrap();
    assert_eq!(set.get(b"f"), Some(b"f_new".to_vec()));
    assert_eq!(set.get(b"g"), Some(b"g_new".to_vec()));
    assert_eq!(set.get(b"h"), None);
}

#[test]
fn duplicate_keys_last_wins() {
    let set = RuleSet::parse(b"f->one,f->two").unwrap();
    assert_eq!(set.get(b"f"), Some(b"two".to_vec()));
}

#[test]
fn missing_configuration_fails() {
    assert_eq!(RuleSet::from_config(None).err(), Some(RuleError::MissingVariable));
    let set = RuleSet::from_config(Some(b"f->f_new")).unwrap();
    assert_eq!(set.get(b"f"), Some(b"f_new".to_vec()));
    assert_eq!(RuleSet::from_config(Some(b"x")).err(), Some(RuleError::MalformedRule));
}
