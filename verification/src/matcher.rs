use vstd::prelude::*;

use crate::config::Rewrite;

verus! {

/// Whether `regex::Regex::new` accepts `pattern`. With the default builder
/// settings this depends on the pattern alone.
pub uninterp spec fn regex_valid(pattern: Seq<char>) -> bool;

/// Whether the regular expression compiled from `pattern` finds a match
/// anywhere in `hay` (search semantics, no anchoring). This depends on the
/// pattern and the haystack alone.
pub uninterp spec fn regex_matched(pattern: Seq<char>, hay: Seq<char>) -> bool;

#[verifier::external_type_specification]
#[verifier::external_body]
pub struct ExRegexError(regex::Error);

/// Relies on `regex::Regex::new` and `regex::Regex::is_match`: with the
/// default builder settings, whether a pattern compiles is a function of the
/// pattern alone, and whether the compiled pattern matches somewhere in the
/// haystack is a function of the pattern and the haystack alone.
#[verifier::external_body]
fn regex_is_match(pattern: &str, hay: &str) -> (r: Result<bool, regex::Error>)
    ensures
        r is Ok <==> regex_valid(pattern@),
        r matches Ok(b) ==> b == regex_matched(pattern@, hay@),
{
    match regex::Regex::new(pattern) {
        Ok(re) => Ok(re.is_match(hay)),
        Err(e) => Err(e),
    }
}

/// The error reported for a match expression that is not a valid regular
/// expression. It carries the offending expression text.
#[derive(Debug)]
pub struct InvalidExpression {
    pub expression: String,
}

/// The outcome of holding one expression, one rule, or one rule list against a
/// value: a match, no match, or an invalid regular expression met on the way.
pub enum MatchStep {
    Hit,
    Miss,
    Bad,
}

/// What trying a single expression against a value yields. Literal equality is
/// decided first; only an expression that is not literally equal is
/// interpreted as a regular expression, so a literally equal expression
/// matches even when it is no valid pattern.
pub open spec fn expr_step(expr: Seq<char>, value: Seq<char>) -> MatchStep {
    if expr == value {
        MatchStep::Hit
    } else if !regex_valid(expr) {
        MatchStep::Bad
    } else if regex_matched(expr, value) {
        MatchStep::Hit
    } else {
        MatchStep::Miss
    }
}

/// What scanning a list of expressions in order yields: the first expression
/// that is not a plain miss decides.
pub open spec fn exprs_scan(exprs: Seq<Seq<char>>, value: Seq<char>) -> MatchStep
    decreases exprs.len(),
{
    if exprs.len() == 0 {
        MatchStep::Miss
    } else if expr_step(exprs[0], value) == MatchStep::Miss {
        exprs_scan(exprs.skip(1), value)
    } else {
        expr_step(exprs[0], value)
    }
}

/// The first expression whose step is `Bad`; meaningful when the scan of the
/// whole list is `Bad`.
pub open spec fn exprs_bad(exprs: Seq<Seq<char>>, value: Seq<char>) -> Seq<char>
    decreases exprs.len(),
{
    if exprs.len() == 0 {
        Seq::empty()
    } else if expr_step(exprs[0], value) == MatchStep::Miss {
        exprs_bad(exprs.skip(1), value)
    } else {
        exprs[0]
    }
}

/// The expressions of a rule, as a sequence of character sequences.
pub open spec fn rule_exprs(rw: Rewrite) -> Seq<Seq<char>> {
    rw.expressions.deep_view()
}

/// What scanning one rule's expressions against a value yields.
pub open spec fn rule_scan(rw: Rewrite, value: Seq<char>) -> MatchStep {
    exprs_scan(rule_exprs(rw), value)
}

/// What scanning an ordered rule list against a value yields: the first rule
/// whose own scan is not a miss decides.
pub open spec fn rules_scan(rules: Seq<Rewrite>, value: Seq<char>) -> MatchStep
    decreases rules.len(),
{
    if rules.len() == 0 {
        MatchStep::Miss
    } else if rule_scan(rules[0], value) == MatchStep::Miss {
        rules_scan(rules.skip(1), value)
    } else {
        rule_scan(rules[0], value)
    }
}

/// The index of the first rule that matches the value; `None` when no rule
/// matches or when an invalid expression cuts the scan short.
pub open spec fn rules_find(rules: Seq<Rewrite>, value: Seq<char>) -> Option<int>
    decreases rules.len(),
{
    if rules.len() == 0 {
        None
    } else if rule_scan(rules[0], value) == MatchStep::Hit {
        Some(0int)
    } else if rule_scan(rules[0], value) == MatchStep::Miss {
        match rules_find(rules.skip(1), value) {
            Some(i) => Some(i + 1),
            None => None,
        }
    } else {
        None
    }
}

/// The offending expression of the first rule whose scan is `Bad`; meaningful
/// when the scan of the whole list is `Bad`.
pub open spec fn rules_bad(rules: Seq<Rewrite>, value: Seq<char>) -> Seq<char>
    decreases rules.len(),
{
    if rules.len() == 0 {
        Seq::empty()
    } else if rule_scan(rules[0], value) == MatchStep::Miss {
        rules_bad(rules.skip(1), value)
    } else {
        exprs_bad(rule_exprs(rules[0]), value)
    }
}

/// Scanning a list whose first `i` expressions all miss yields whatever
/// scanning the rest yields.
proof fn lemma_exprs_scan_skip(exprs: Seq<Seq<char>>, value: Seq<char>, i: int)
    requires
        0 <= i <= exprs.len(),
        forall|j: int| 0 <= j < i ==> expr_step(exprs[j], value) == MatchStep::Miss,
    ensures
        exprs_scan(exprs, value) == exprs_scan(exprs.skip(i), value),
        exprs_bad(exprs, value) == exprs_bad(exprs.skip(i), value),
    decreases i,
{
    if i > 0 {
        assert(expr_step(exprs[0], value) == MatchStep::Miss);
        lemma_exprs_scan_skip(exprs.skip(1), value, i - 1);
        assert(exprs.skip(1).skip(i - 1) =~= exprs.skip(i));
    } else {
        assert(exprs.skip(0) =~= exprs);
    }
}

/// Scanning a rule list whose first `i` rules all miss yields whatever
/// scanning the rest yields, and the index found is shifted by `i`.
proof fn lemma_rules_scan_skip(rules: Seq<Rewrite>, value: Seq<char>, i: int)
    requires
        0 <= i <= rules.len(),
        forall|j: int| 0 <= j < i ==> rule_scan(rules[j], value) == MatchStep::Miss,
    ensures
        rules_scan(rules, value) == rules_scan(rules.skip(i), value),
        rules_bad(rules, value) == rules_bad(rules.skip(i), value),
        rules_find(rules, value) == match rules_find(rules.skip(i), value) {
            Some(k) => Some(k + i),
            None => None::<int>,
        },
    decreases i,
{
    if i > 0 {
        assert(rule_scan(rules[0], value) == MatchStep::Miss);
        lemma_rules_scan_skip(rules.skip(1), value, i - 1);
        assert(rules.skip(1).skip(i - 1) =~= rules.skip(i));
    } else {
        assert(rules.skip(0) =~= rules);
    }
}

/// First-match-wins over the rule list: when the scan finds index `i`, rule
/// `i` matches the value and every rule before it misses; when it finds no
/// index and no invalid expression cut the scan short, every rule misses.
pub proof fn lemma_first_match(rules: Seq<Rewrite>, value: Seq<char>)
    ensures
        rules_find(rules, value) matches Some(i) ==> 0 <= i < rules.len() && rule_scan(
            rules[i],
            value,
        ) == MatchStep::Hit && (forall|j: int|
            0 <= j < i ==> rule_scan(#[trigger] rules[j], value) == MatchStep::Miss),
        rules_find(rules, value) is None && rules_scan(rules, value) != MatchStep::Bad
            ==> forall|j: int|
            0 <= j < rules.len() ==> rule_scan(#[trigger] rules[j], value) == MatchStep::Miss,
    decreases rules.len(),
{
    if rules.len() > 0 {
        lemma_first_match(rules.skip(1), value);
        assert forall|j: int| 1 <= j < rules.len() implies rules.skip(1)[j - 1] == rules[j] by {}
        if rule_scan(rules[0], value) == MatchStep::Miss {
            if let Some(i) = rules_find(rules.skip(1), value) {
                assert(rules_find(rules, value) == Some(i + 1));
                assert(rules.skip(1)[i] == rules[i + 1]);
            }
        }
    }
}

/// Within one rule, literal equality is decided before regular-expression
/// interpretation: an expression that is literally equal to the value makes
/// the rule match even when that expression is no valid pattern, as long as
/// every earlier expression was a plain miss.
pub proof fn lemma_literal_first(exprs: Seq<Seq<char>>, value: Seq<char>, i: int)
    requires
        0 <= i < exprs.len(),
        exprs[i] == value,
        forall|j: int| 0 <= j < i ==> expr_step(#[trigger] exprs[j], value) == MatchStep::Miss,
    ensures
        exprs_scan(exprs, value) == MatchStep::Hit,
{
    lemma_exprs_scan_skip(exprs, value, i);
    assert(exprs.skip(i)[0] == exprs[i]);
}

/// Across the expressions of one rule the order is list order, not "all
/// literals first": an invalid expression that is not literally equal to the
/// value ends the scan with an error, even when a later expression would have
/// been literally equal.
pub proof fn lemma_list_order(exprs: Seq<Seq<char>>, value: Seq<char>, i: int)
    requires
        0 <= i < exprs.len(),
        expr_step(exprs[i], value) == MatchStep::Bad,
        forall|j: int| 0 <= j < i ==> expr_step(#[trigger] exprs[j], value) == MatchStep::Miss,
    ensures
        exprs_scan(exprs, value) == MatchStep::Bad,
        exprs_bad(exprs, value) == exprs[i],
{
    lemma_exprs_scan_skip(exprs, value, i);
    assert(exprs.skip(i)[0] == exprs[i]);
}

/// Return whether the value `hay` matches any expression of the given rule:
/// the first expression that is literally equal to `hay` or that, read as a
/// regular expression, matches `hay` decides. An expression that is neither
/// literally equal nor a valid regular expression ends the scan with an error
/// carrying that expression.
pub fn rewrite_matches(rewrite: &Rewrite, hay: &String) -> (r: Result<bool, InvalidExpression>)
    ensures
        r is Ok <==> rule_scan(*rewrite, hay@) != MatchStep::Bad,
        r matches Ok(b) ==> b == (rule_scan(*rewrite, hay@) == MatchStep::Hit),
        r matches Err(e) ==> e.expression@ == exprs_bad(rule_exprs(*rewrite), hay@),
{
    let ghost exprs = rule_exprs(*rewrite);
    let mut i: usize = 0;
    while i < rewrite.expressions.len()
        invariant
            0 <= i <= rewrite.expressions.len(),
            exprs == rule_exprs(*rewrite),
            forall|j: int| 0 <= j < i ==> expr_step(exprs[j], hay@) == MatchStep::Miss,
        decreases rewrite.expressions.len() - i,
    {
        let expr: &String = &rewrite.expressions[i];
        assert(exprs[i as int] == expr@);
        if *hay == *expr {
            proof {
                assert(expr_step(exprs[i as int], hay@) == MatchStep::Hit);
                lemma_exprs_scan_skip(exprs, hay@, i as int);
            }
            return Ok(true);
        }
        match regex_is_match(expr.as_str(), hay.as_str()) {
            Err(_) => {
                proof {
                    assert(expr_step(exprs[i as int], hay@) == MatchStep::Bad);
                    lemma_exprs_scan_skip(exprs, hay@, i as int);
                }
                return Err(InvalidExpression { expression: expr.clone() });
            },
            Ok(true) => {
                proof {
                    assert(expr_step(exprs[i as int], hay@) == MatchStep::Hit);
                    lemma_exprs_scan_skip(exprs, hay@, i as int);
                }
                return Ok(true);
            },
            Ok(false) => {
                assert(expr_step(exprs[i as int], hay@) == MatchStep::Miss);
            },
        }
        i += 1;
    }
    proof {
        lemma_exprs_scan_skip(exprs, hay@, exprs.len() as int);
    }
    Ok(false)
}

/// Return the index of the first rule, in list order, with an expression that
/// matches `value` (literally or as a regular expression), or `None` when no
/// rule matches. An invalid regular expression met before a match ends the
/// scan with an error carrying that expression.
pub fn find_match(rules: &Vec<Rewrite>, value: &String) -> (r: Result<
    Option<usize>,
    InvalidExpression,
>)
    ensures
        r is Ok <==> rules_scan(rules@, value@) != MatchStep::Bad,
        r matches Ok(o) ==> match o {
            Some(i) => rules_find(rules@, value@) == Some(i as int),
            None => rules_find(rules@, value@) is None,
        },
        r matches Err(e) ==> e.expression@ == rules_bad(rules@, value@),
{
    let mut i: usize = 0;
    while i < rules.len()
        invariant
            0 <= i <= rules@.len(),
            forall|j: int| 0 <= j < i ==> rule_scan(rules@[j], value@) == MatchStep::Miss,
        decreases rules@.len() - i,
    {
        let rule: &Rewrite = &rules[i];
        match rewrite_matches(rule, value) {
            Err(e) => {
                proof {
                    lemma_rules_scan_skip(rules@, value@, i as int);
                }
                return Err(e);
            },
            Ok(true) => {
                proof {
                    lemma_rules_scan_skip(rules@, value@, i as int);
                }
                return Ok(Some(i));
            },
            Ok(false) => {},
        }
        i += 1;
    }
    proof {
        lemma_rules_scan_skip(rules@, value@, rules@.len() as int);
    }
    Ok(None)
}

} // verus!
