use vstd::prelude::*;

use crate::config::{Action, Config};
use crate::pagerduty::Incident;
use crate::text::{trim, trimmed};

verus! {

/// `regex::Regex`, carried opaquely inside `Pattern`.
#[verifier::external_type_specification]
#[verifier::external_body]
pub struct ExRegex(regex::Regex);

/// `regex::RegexSet`, carried opaquely inside `PatternSet`.
#[verifier::external_type_specification]
#[verifier::external_body]
pub struct ExRegexSet(regex::RegexSet);

/// `regex::Error`, handed back when a pattern does not compile.
#[verifier::external_type_specification]
#[verifier::external_body]
pub struct ExRegexError(regex::Error);

/// Whether `regex::Regex::new` accepts a pattern.
pub uninterp spec fn regex_compiles(pattern: Seq<char>) -> bool;

/// Whether `regex::RegexSet::new` accepts a list of patterns.
pub uninterp spec fn regex_set_compiles(patterns: Seq<Seq<char>>) -> bool;

/// Whether the compiled `pattern` matches somewhere in `haystack`.
pub uninterp spec fn regex_is_match(pattern: Seq<char>, haystack: Seq<char>) -> bool;

/// What `Regex::replace_all` makes of `haystack` with `template`, whose
/// group references (`$1`, `${name}`) are expanded for each match.
pub uninterp spec fn regex_replace_all(
    pattern: Seq<char>,
    haystack: Seq<char>,
    template: Seq<char>,
) -> Seq<char>;

/// A compiled regular expression together with its source text.
pub struct Pattern {
    re: regex::Regex,
    source: String,
}

impl View for Pattern {
    type V = Seq<char>;

    closed spec fn view(&self) -> Seq<char> {
        self.source@
    }
}

impl Pattern {
    /// Relies on `regex::Regex::new`: compiles `source`, failing when the
    /// crate rejects it.
    #[verifier::external_body]
    pub(crate) fn new(source: &str) -> (r: Result<Pattern, regex::Error>)
        ensures
            r is Ok <==> regex_compiles(source@),
            r matches Ok(p) ==> p@ == source@,
    {
        match regex::Regex::new(source) {
            Ok(re) => Ok(Pattern { re, source: source.to_string() }),
            Err(e) => Err(e),
        }
    }

    /// Relies on `regex::Regex::is_match`.
    #[verifier::external_body]
    pub(crate) fn is_match(&self, haystack: &str) -> (r: bool)
        ensures
            r == regex_is_match(self@, haystack@),
    {
        self.re.is_match(haystack)
    }

    /// Relies on `regex::Regex::replace_all` with a `&str` template.
    #[verifier::external_body]
    pub(crate) fn replace_all(&self, haystack: &str, template: &str) -> (r: String)
        ensures
            r@ == regex_replace_all(self@, haystack@, template@),
    {
        self.re.replace_all(haystack, template).to_string()
    }
}

/// Several compiled regular expressions, tested together.
pub struct PatternSet {
    set: regex::RegexSet,
    sources: Vec<String>,
}

pub open spec fn views_of(v: Seq<String>) -> Seq<Seq<char>> {
    v.map_values(|s: String| s@)
}

impl View for PatternSet {
    type V = Seq<Seq<char>>;

    closed spec fn view(&self) -> Seq<Seq<char>> {
        views_of(self.sources@)
    }
}

impl PatternSet {
    /// Relies on `regex::RegexSet::new`: compiles all patterns as one set,
    /// pattern `i` under index `i`.
    #[verifier::external_body]
    pub(crate) fn new(sources: &Vec<String>) -> (r: Result<PatternSet, regex::Error>)
        ensures
            r is Ok <==> regex_set_compiles(views_of(sources@)),
            r matches Ok(s) ==> s@ == views_of(sources@),
    {
        match regex::RegexSet::new(sources) {
            Ok(set) => Ok(PatternSet { set, sources: sources.clone() }),
            Err(e) => Err(e),
        }
    }

    /// Relies on `regex::RegexSet::matches` and its owned iterator: the
    /// indices of the patterns that match `haystack` (each tested as
    /// `Regex::is_match` would test it alone), in ascending order.
    #[verifier::external_body]
    pub(crate) fn matching(&self, haystack: &str) -> (r: Vec<usize>)
        ensures
            forall|a: int, b: int| 0 <= a < b < r@.len() ==> r@[a] < r@[b],
            forall|i: usize|
                r@.contains(i) <==> (i < self@.len() && regex_is_match(self@[i as int], haystack@)),
    {
        self.set.matches(haystack).into_iter().collect()
    }
}

/// A rule's pattern as it is compiled: the trimmed alert pattern, anchored
/// at both ends so that it must match the whole description.
pub open spec fn anchored(alert: Seq<char>) -> Seq<char> {
    seq!['^'] + trimmed(alert) + seq!['$']
}

/// The compiled patterns of a rule list, rule `i` under index `i`.
pub open spec fn rule_patterns(actions: Seq<Action>) -> Seq<Seq<char>> {
    actions.map_values(|a: Action| anchored(a.alert@))
}

/// Whether every rule's pattern compiles, alone and as one set.
pub open spec fn rules_compile(actions: Seq<Action>) -> bool {
    &&& regex_set_compiles(rule_patterns(actions))
    &&& forall|i: int| 0 <= i < actions.len() ==> regex_compiles(#[trigger] rule_patterns(actions)[i])
}

fn anchor(alert: &String) -> (r: String)
    ensures
        r@ == anchored(alert@),
{
    let mut s = String::from_str("^");
    s.append(trim(alert.as_str()));
    s.append("$");
    proof {
        reveal_strlit("^");
        reveal_strlit("$");
    }
    s
}

/// Compiles the rules: one set that tells which rules match a description,
/// and one pattern per rule for the substitution.
pub fn get_regexes(cfg: &Config) -> (r: Result<(PatternSet, Vec<Pattern>), regex::Error>)
    ensures
        r is Ok <==> rules_compile(cfg.actions@),
        r matches Ok((set, res)) ==> {
            &&& set@ == rule_patterns(cfg.actions@)
            &&& res@.len() == cfg.actions@.len()
            &&& forall|i: int| 0 <= i < res@.len() ==> #[trigger] res@[i]@ == rule_patterns(cfg.actions@)[i]
        },
{
    let ghost pats = rule_patterns(cfg.actions@);
    let mut regex_strs: Vec<String> = Vec::new();
    let n = cfg.actions.len();
    for k in 0..n
        invariant
            n == cfg.actions@.len(),
            pats == rule_patterns(cfg.actions@),
            views_of(regex_strs@) == pats.take(k as int),
    {
        let s = anchor(&cfg.actions[k].alert);
        let ghost prev = regex_strs@;
        regex_strs.push(s);
        assert(regex_strs@ == prev.push(s));
        assert(views_of(regex_strs@) =~= views_of(prev).push(s@));
        assert(pats.take(k + 1) =~= pats.take(k as int).push(pats[k as int]));
    }
    assert(pats.take(n as int) =~= pats);
    let set = match PatternSet::new(&regex_strs) {
        Ok(set) => set,
        Err(e) => return Err(e),
    };
    let mut regexes: Vec<Pattern> = Vec::new();
    for k in 0..n
        invariant
            n == cfg.actions@.len(),
            pats == rule_patterns(cfg.actions@),
            views_of(regex_strs@) == pats,
            regex_strs@.len() == n,
            regexes@.len() == k,
            forall|i: int| 0 <= i < k ==> regex_compiles(#[trigger] pats[i]),
            forall|i: int| 0 <= i < k ==> #[trigger] regexes@[i]@ == pats[i],
    {
        assert(regex_strs[k as int]@ == pats[k as int]);
        let re = match Pattern::new(regex_strs[k].as_str()) {
            Ok(re) => re,
            Err(e) => return Err(e),
        };
        regexes.push(re);
    }
    Ok((set, regexes))
}

/// The identifier and trimmed description of an incident that has both.
pub open spec fn incident_entry(inc: Incident) -> Option<(Seq<char>, Seq<char>)> {
    match inc.trigger_summary_data {
        Some(data) => match data.description {
            Some(desc) => match inc.id {
                Some(id) => Some((id@, trimmed(desc@))),
                None => None,
            },
            None => None,
        },
        None => None,
    }
}

/// The work one rule gets from a list of incidents: for each incident with
/// an identifier and a description that the rule's pattern matches, in the
/// incidents' order, its identifier and the command derived from the template.
pub open spec fn work_of(
    incidents: Seq<Incident>,
    pattern: Seq<char>,
    template: Seq<char>,
) -> Seq<(Seq<char>, Seq<char>)>
    decreases incidents.len(),
{
    if incidents.len() == 0 {
        seq![]
    } else {
        let prev = work_of(incidents.drop_last(), pattern, template);
        match incident_entry(incidents.last()) {
            Some((id, desc)) => if regex_is_match(pattern, desc) {
                prev.push((id, regex_replace_all(pattern, desc, template)))
            } else {
                prev
            },
            None => prev,
        }
    }
}

pub open spec fn pairs_view(v: Seq<(String, String)>) -> Seq<(Seq<char>, Seq<char>)> {
    v.map_values(|p: (String, String)| (p.0@, p.1@))
}

/// The work of every rule, rule `i` under index `i`.
pub open spec fn commands_match(
    r: Seq<Vec<(String, String)>>,
    incidents: Seq<Incident>,
    actions: Seq<Action>,
) -> bool {
    &&& r.len() == actions.len()
    &&& forall|i: int|
        0 <= i < actions.len() ==> #[trigger] pairs_view(r[i]@) == work_of(
            incidents,
            rule_patterns(actions)[i],
            actions[i].cmd@,
        )
}

/// Compiles the rules and derives from the incidents the commands that each
/// rule is to run: one list per rule, under the rule's index.
pub fn get_commands_by_actions(incidents: &Vec<Incident>, cfg: &Config) -> (r: Result<
    Vec<Vec<(String, String)>>,
    regex::Error,
>)
    ensures
        r is Ok <==> rules_compile(cfg.actions@),
        r matches Ok(cmds) ==> commands_match(cmds@, incidents@, cfg.actions@),
{
    let (set, regexes) = match get_regexes(cfg) {
        Ok(p) => p,
        Err(e) => return Err(e),
    };
    let ghost pats = rule_patterns(cfg.actions@);
    let ghost acts = cfg.actions@;
    let n = cfg.actions.len();
    let mut cmd_by_action: Vec<Vec<(String, String)>> = Vec::new();
    for k in 0..n
        invariant
            cmd_by_action@.len() == k,
            forall|i: int| 0 <= i < k ==> (#[trigger] cmd_by_action@[i])@.len() == 0,
    {
        cmd_by_action.push(Vec::new());
    }
    assert forall|i: int| 0 <= i < n implies #[trigger] pairs_view(cmd_by_action@[i]@)
        == work_of(incidents@.take(0), pats[i], acts[i].cmd@) by {
        assert(pairs_view(cmd_by_action@[i]@) =~= seq![]);
    }
    let m = incidents.len();
    for t in 0..m
        invariant
            m == incidents@.len(),
            n == acts.len(),
            acts == cfg.actions@,
            pats == rule_patterns(acts),
            set@ == pats,
            regexes@.len() == n,
            forall|i: int| 0 <= i < n ==> #[trigger] regexes@[i]@ == pats[i],
            commands_match(cmd_by_action@, incidents@.take(t as int), acts),
    {
        let ghost before = cmd_by_action@;
        let ghost upto = incidents@.take(t + 1);
        assert(upto.drop_last() =~= incidents@.take(t as int));
        assert(upto.last() == incidents@[t as int]);
        let incident = &incidents[t];
        let entry = match &incident.trigger_summary_data {
            Some(data) => match &data.description {
                Some(desc) => match &incident.id {
                    Some(id) => Some((id, trim(desc.as_str()))),
                    None => None,
                },
                None => None,
            },
            None => None,
        };
        match entry {
            None => {
                assert(incident_entry(incidents@[t as int]) is None);
                assert forall|i: int| 0 <= i < n implies #[trigger] pairs_view(cmd_by_action@[i]@)
                    == work_of(upto, pats[i], acts[i].cmd@) by {}
            },
            Some((incident_id, desc)) => {
                let matched = set.matching(desc);
                let mm = matched.len();
                for q in 0..mm
                    invariant
                        n == acts.len(),
                        acts == cfg.actions@,
                        pats == rule_patterns(acts),
                        set@ == pats,
                        regexes@.len() == n,
                        forall|i: int| 0 <= i < n ==> #[trigger] regexes@[i]@ == pats[i],
                        cmd_by_action@.len() == n,
                        before.len() == n,
                        mm == matched@.len(),
                        forall|a: int, b: int| 0 <= a < b < matched@.len() ==> matched@[a] < matched@[b],
                        forall|i: usize| matched@.contains(i) <==> (i < n && regex_is_match(pats[i as int], desc@)),
                        forall|i: int| 0 <= i < n ==> {
                            let done = exists|a: int| 0 <= a < q && matched@[a] == i;
                            &&& done ==> #[trigger] pairs_view(cmd_by_action@[i]@) == pairs_view(before[i]@).push(
                                (incident_id@, regex_replace_all(pats[i], desc@, acts[i].cmd@)))
                            &&& !done ==> pairs_view(cmd_by_action@[i]@) == pairs_view(before[i]@)
                        },
                {
                    let index = matched[q];
                    assert(matched@.contains(index));
                    let command = regexes[index].replace_all(desc, cfg.actions[index].cmd.as_str());
                    let ghost pre = cmd_by_action@;
                    let mut list = cmd_by_action.remove(index);
                    let ghost old_list = list@;
                    list.push((incident_id.clone(), command));
                    assert(pairs_view(list@) =~= pairs_view(old_list).push((incident_id@, command@)));
                    cmd_by_action.insert(index, list);
                    assert(cmd_by_action@ =~= pre.update(index as int, cmd_by_action@[index as int]));
                    assert forall|i: int| 0 <= i < n implies {
                        let done = exists|a: int| 0 <= a < q + 1 && matched@[a] == i;
                        &&& done ==> #[trigger] pairs_view(cmd_by_action@[i]@) == pairs_view(before[i]@).push(
                            (incident_id@, regex_replace_all(pats[i], desc@, acts[i].cmd@)))
                        &&& !done ==> pairs_view(cmd_by_action@[i]@) == pairs_view(before[i]@)
                    } by {
                        if i == index {
                            assert(!exists|a: int| 0 <= a < q && matched@[a] == i);
                        }
                    }
                }
                assert forall|i: int| 0 <= i < n implies #[trigger] pairs_view(cmd_by_action@[i]@)
                    == work_of(upto, pats[i], acts[i].cmd@) by {
                    assert(incident_entry(upto.last()) == Some((incident_id@, desc@)));
                    if regex_is_match(pats[i], desc@) {
                        assert(matched@.contains(i as usize));
                    } else {
                        if exists|a: int| 0 <= a < mm && matched@[a] == i {
                            let a = choose|a: int| 0 <= a < mm && matched@[a] == i;
                            assert(matched@.contains(matched@[a]));
                        }
                    }
                }
            },
        }
    }
    assert(incidents@.take(m as int) =~= incidents@);
    Ok(cmd_by_action)
}

/// One more incident adds to each rule's work exactly one entry when the
/// rule's pattern matches its description, and nothing otherwise: an incident
/// that two rules match is listed under both, one that no rule matches under
/// none, and one without identifier or description under none.
pub proof fn lemma_incident_contribution(
    incidents: Seq<Incident>,
    incident: Incident,
    actions: Seq<Action>,
    i: int,
)
    requires
        0 <= i < actions.len(),
    ensures
        ({
            let pattern = rule_patterns(actions)[i];
            let template = actions[i].cmd@;
            let before = work_of(incidents, pattern, template);
            let after = work_of(incidents.push(incident), pattern, template);
            match incident_entry(incident) {
                Some((id, desc)) => if regex_is_match(pattern, desc) {
                    after == before.push((id, regex_replace_all(pattern, desc, template)))
                } else {
                    after == before
                },
                None => after == before,
            }
        }),
{
    assert(incidents.push(incident).drop_last() =~= incidents);
}

} // verus!
