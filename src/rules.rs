//! The rule set: which symbol is redirected to which replacement, read from a
//! configuration string of the form `orig1->repl1,orig2->repl2,...`.

use vstd::prelude::*;
use crate::bytes::{bytes_eq, copy_range};

verus! {

pub const COMMA: u8 = 0x2c;

pub const DASH: u8 = 0x2d;

pub const GT: u8 = 0x3e;

/// One rule: calls to `symbol` go to `replacement`.
#[derive(Debug)]
pub struct Rule {
    pub symbol: Vec<u8>,
    pub replacement: Vec<u8>,
}

impl Rule {
    pub open spec fn pair(self) -> (Seq<u8>, Seq<u8>) {
        (self.symbol@, self.replacement@)
    }
}

/// Why a configuration cannot be turned into a rule set.
#[derive(Clone, Copy, Debug, PartialEq, Eq, Structural)]
pub enum RuleError {
    /// No configuration was given at all.
    MissingVariable,
    /// A non-empty segment holds no `->`.
    MalformedRule,
}

/// The configuration split at each comma, empty segments included.
pub open spec fn split_commas(s: Seq<u8>) -> Seq<Seq<u8>>
    decreases s.len(),
{
    if s.len() == 0 {
        seq![Seq::empty()]
    } else {
        let prev = split_commas(s.drop_last());
        if s.last() == COMMA {
            prev.push(Seq::empty())
        } else {
            prev.update(prev.len() - 1, prev.last().push(s.last()))
        }
    }
}

/// The first position at or after `k` where `seg` holds `->`.
pub open spec fn arrow_from(seg: Seq<u8>, k: int) -> Option<int>
    decreases seg.len() - k,
{
    if k + 1 >= seg.len() {
        None
    } else if seg[k] == DASH && seg[k + 1] == GT {
        Some(k)
    } else {
        arrow_from(seg, k + 1)
    }
}

/// A segment read as a rule: what stands before its first `->`, and what
/// stands after it.
pub open spec fn rule_of(seg: Seq<u8>) -> Option<(Seq<u8>, Seq<u8>)> {
    match arrow_from(seg, 0) {
        Some(k) => Some((seg.take(k), seg.skip(k + 2))),
        None => None,
    }
}

/// The rules of the non-empty segments, in order; `None` if one of them is
/// no rule.
pub open spec fn rules_of(segs: Seq<Seq<u8>>) -> Option<Seq<(Seq<u8>, Seq<u8>)>>
    decreases segs.len(),
{
    if segs.len() == 0 {
        Some(Seq::empty())
    } else {
        match rules_of(segs.drop_last()) {
            None => None,
            Some(rs) => if segs.last().len() == 0 {
                Some(rs)
            } else {
                match rule_of(segs.last()) {
                    None => None,
                    Some(r) => Some(rs.push(r)),
                }
            },
        }
    }
}

/// The rules that a configuration string holds, in order of appearance.
pub open spec fn parse_config(s: Seq<u8>) -> Option<Seq<(Seq<u8>, Seq<u8>)>> {
    rules_of(split_commas(s))
}

/// The mapping that a list of rules stands for: of two rules for one symbol,
/// the later one wins.
pub open spec fn rule_map(rs: Seq<(Seq<u8>, Seq<u8>)>) -> Map<Seq<u8>, Seq<u8>>
    decreases rs.len(),
{
    if rs.len() == 0 {
        Map::empty()
    } else {
        rule_map(rs.drop_last()).insert(rs.last().0, rs.last().1)
    }
}

proof fn lemma_split_commas_nonempty(s: Seq<u8>)
    ensures
        split_commas(s).len() >= 1,
    decreases s.len(),
{
    if s.len() > 0 {
        lemma_split_commas_nonempty(s.drop_last());
    }
}

/// An immutable mapping from symbol names to replacement names.
pub struct RuleSet {
    pub rules: Vec<Rule>,
}

impl RuleSet {
    /// The rules in order of appearance.
    pub open spec fn pairs(self) -> Seq<(Seq<u8>, Seq<u8>)> {
        self.rules@.map_values(|r: Rule| r.pair())
    }

    /// The mapping from symbol names to replacement names.
    pub open spec fn view(self) -> Map<Seq<u8>, Seq<u8>> {
        rule_map(self.pairs())
    }

    /// Reads a rule set from a configuration string.
    ///
    /// Empty segments are ignored; every other segment must contain `->`.
    /// Where a symbol has several rules, the last one wins.
    pub fn parse(s: &[u8]) -> (r: Result<RuleSet, RuleError>)
        ensures
            match r {
                Ok(set) => parse_config(s@) == Some(set.pairs()),
                Err(e) => e == RuleError::MalformedRule && parse_config(s@) is None,
            },
    {
        let mut rules: Vec<Rule> = Vec::new();
        let mut failed = false;
        let mut start: usize = 0;
        let mut i: usize = 0;
        proof {
            assert(s@.take(0) =~= Seq::<u8>::empty());
        }
        while i < s.len()
            invariant
                start <= i <= s.len(),
                split_commas(s@.take(i as int)).len() >= 1,
                split_commas(s@.take(i as int)).last() == s@.subrange(start as int, i as int),
                failed <==> rules_of(split_commas(s@.take(i as int)).drop_last()) is None,
                !failed ==> rules_of(split_commas(s@.take(i as int)).drop_last()) == Some(
                    rules@.map_values(|r: Rule| r.pair()),
                ),
            decreases s.len() - i,
        {
            let ghost segs = split_commas(s@.take(i as int));
            proof {
                assert(s@.take(i + 1).drop_last() =~= s@.take(i as int));
                lemma_split_commas_nonempty(s@.take(i + 1));
            }
            if s[i] == COMMA {
                proof {
                    assert(split_commas(s@.take(i + 1)).drop_last() =~= segs);
                }
                self::add_segment(s, start, i, &mut rules, &mut failed, Ghost(segs));
                start = i + 1;
            } else {
                proof {
                    let next = split_commas(s@.take(i + 1));
                    assert(next.drop_last() =~= segs.drop_last());
                    assert(next.last() =~= s@.subrange(start as int, i + 1));
                }
            }
            i += 1;
        }
        proof {
            assert(s@.take(i as int) =~= s@);
        }
        let ghost segs = split_commas(s@);
        self::add_segment(s, start, i, &mut rules, &mut failed, Ghost(segs));
        proof {
            assert(segs.push(segs.last()).drop_last() =~= segs);
        }
        if failed {
            Err(RuleError::MalformedRule)
        } else {
            Ok(RuleSet { rules })
        }
    }

    /// Reads a rule set from a configuration that may be absent.
    pub fn from_config(value: Option<&[u8]>) -> (r: Result<RuleSet, RuleError>)
        ensures
            match value {
                None => r == Err::<RuleSet, RuleError>(RuleError::MissingVariable),
                Some(s) => match r {
                    Ok(set) => parse_config(s@) == Some(set.pairs()),
                    Err(e) => e == RuleError::MalformedRule && parse_config(s@) is None,
                },
            },
    {
        match value {
            None => Err(RuleError::MissingVariable),
            Some(s) => RuleSet::parse(s),
        }
    }

    /// The replacement name for `name`, if a rule names it.
    pub fn get(&self, name: &[u8]) -> (r: Option<Vec<u8>>)
        ensures
            match r {
                Some(v) => self@.contains_key(name@) && self@[name@] == v@,
                None => !self@.contains_key(name@),
            },
    {
        let mut found: Option<usize> = None;
        let mut i: usize = 0;
        while i < self.rules.len()
            invariant
                i <= self.rules.len(),
                match found {
                    Some(j) => j < i && rule_map(self.pairs().take(i as int)).contains_key(name@)
                        && rule_map(self.pairs().take(i as int))[name@] == self.rules@[j as int].replacement@,
                    None => !rule_map(self.pairs().take(i as int)).contains_key(name@),
                },
            decreases self.rules.len() - i,
        {
            proof {
                assert(self.pairs().take(i + 1).drop_last() =~= self.pairs().take(i as int));
            }
            if bytes_eq(self.rules[i].symbol.as_slice(), name) {
                found = Some(i);
            }
            i += 1;
        }
        proof {
            assert(self.pairs().take(i as int) =~= self.pairs());
        }
        match found {
            Some(j) => {
                let rule = &self.rules[j];
                Some(copy_range(rule.replacement.as_slice(), 0, rule.replacement.len()))
            },
            None => None,
        }
    }
}

/// Adds the rule of the segment `s[start..end]`, the last of `segs`, where it
/// is not empty; sets `failed` where it is no rule.
fn add_segment(
    s: &[u8],
    start: usize,
    end: usize,
    rules: &mut Vec<Rule>,
    failed: &mut bool,
    Ghost(segs): Ghost<Seq<Seq<u8>>>,
)
    requires
        start <= end <= s.len(),
        segs.len() >= 1,
        segs.last() == s@.subrange(start as int, end as int),
        *old(failed) <==> rules_of(segs.drop_last()) is None,
        !*old(failed) ==> rules_of(segs.drop_last()) == Some(
            old(rules)@.map_values(|r: Rule| r.pair()),
        ),
    ensures
        *final(failed) <==> rules_of(segs) is None,
        !*final(failed) ==> rules_of(segs) == Some(final(rules)@.map_values(|r: Rule| r.pair())),
{
    if *failed || start == end {
        return;
    }
    let seg = copy_range(s, start, end);
    match split_rule(&seg) {
        None => {
            *failed = true;
        },
        Some(rule) => {
            let ghost before = rules@;
            rules.push(rule);
            proof {
                assert(rules@.map_values(|r: Rule| r.pair()) =~= before.map_values(
                    |r: Rule| r.pair(),
                ).push(rule.pair()));
            }
        },
    }
}

/// Splits a segment at its first `->`.
fn split_rule(seg: &Vec<u8>) -> (r: Option<Rule>)
    ensures
        match r {
            Some(rule) => rule_of(seg@) == Some(rule.pair()),
            None => rule_of(seg@) is None,
        },
{
    let mut k: usize = 0;
    while k < seg.len() && k + 1 < seg.len()
        invariant
            arrow_from(seg@, 0) == arrow_from(seg@, k as int),
        decreases seg.len() - k,
    {
        if seg[k] == DASH && seg[k + 1] == GT {
            let symbol = copy_range(seg.as_slice(), 0, k);
            let replacement = copy_range(seg.as_slice(), k + 2, seg.len());
            proof {
                assert(symbol@ =~= seg@.take(k as int));
                assert(replacement@ =~= seg@.skip(k + 2));
            }
            return Some(Rule { symbol, replacement });
        }
        k += 1;
    }
    None
}

} // verus!
