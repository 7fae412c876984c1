//! Checking definitions: dependency graphs must have nodes, name only declared
//! nodes, and have no cycle.

use crate::graph;
use crate::graph::{flatten, layers, remaining};
use crate::names;
use crate::names::find;
use crate::text;
use crate::text::{join, quoted};
use crate::text_map;
use crate::text_map::TextMap;
use vstd::prelude::*;
use vstd::string::*;

verus! {

/// How severe an issue is.
#[derive(Debug, Clone, Copy, PartialEq, Eq, Structural)]
pub enum IssueLevel {
    /// Worth attention.
    Warning,
    /// Not acceptable.
    Error,
}

/// The wire string of a level.
pub open spec fn level_wire(level: IssueLevel) -> Seq<char> {
    match level {
        IssueLevel::Warning => "WARNING"@,
        IssueLevel::Error => "ERROR"@,
    }
}

impl IssueLevel {
    /// The wire string.
    pub fn as_str(self) -> (wire: &'static str)
        ensures
            wire@ == level_wire(self),
            self == IssueLevel::Warning ==> wire@ == "WARNING"@,
            self == IssueLevel::Error ==> wire@ == "ERROR"@,
    {
        match self {
            IssueLevel::Warning => "WARNING",
            IssueLevel::Error => "ERROR",
        }
    }

    /// The wire string.
    pub fn to_string(&self) -> (wire: String)
        ensures
            wire@ == level_wire(*self),
    {
        self.as_str().to_owned()
    }
}

/// A problem of a definition.
#[derive(Debug)]
pub struct ValidationIssue {
    /// The definition.
    pub target: String,
    /// How severe the problem is.
    pub level: IssueLevel,
    /// What the problem is.
    pub message: String,
}

/// The error of a report that is not accepted.
#[derive(Debug)]
pub struct ValidationError(
    /// The issues, joined.
    pub String,
);

impl ValidationError {
    /// The message of the error.
    pub fn to_string(&self) -> (message: String)
        ensures
            message@ == "firefly/orchestration: validation failed: "@ + self.0@,
    {
        let mut out: String = "firefly/orchestration: validation failed: ".to_owned();
        out.append(self.0.as_str());
        out
    }
}

/// The problems of a definition.
#[derive(Debug)]
pub struct ValidationReport {
    /// The issues, in the order in which they were found.
    pub issues: Vec<ValidationIssue>,
}

/// Whether some issue is an error.
pub open spec fn any_error(issues: Seq<ValidationIssue>) -> bool {
    exists|i: int| 0 <= i < issues.len() && (#[trigger] issues[i]).level == IssueLevel::Error
}

/// An issue as a line.
pub open spec fn issue_line(issue: ValidationIssue) -> Seq<char> {
    "["@ + issue.target@ + "] "@ + issue.message@
}

/// The issues of a level as lines, or all issues.
pub open spec fn issue_lines(
    issues: Seq<ValidationIssue>,
    level: Option<IssueLevel>,
) -> Seq<Seq<char>>
    decreases issues.len(),
{
    if issues.len() == 0 {
        Seq::empty()
    } else {
        let front = issue_lines(issues.drop_last(), level);
        if level is None || level == Some(issues.last().level) {
            front.push(issue_line(issues.last()))
        } else {
            front
        }
    }
}

impl ValidationReport {
    /// A report without issues.
    pub fn new() -> (report: ValidationReport)
        ensures
            report.issues@.len() == 0,
    {
        ValidationReport { issues: Vec::new() }
    }

    /// Whether some issue is an error.
    pub fn has_errors(&self) -> (yes: bool)
        ensures
            yes == any_error(self.issues@),
            yes <==> exists|i: int|
                0 <= i < self.issues@.len() && (#[trigger] self.issues@[i]).level
                    == IssueLevel::Error,
    {
        let mut i: usize = 0;
        while i < self.issues.len()
            invariant
                i <= self.issues@.len(),
                forall|k: int|
                    0 <= k < i ==> (#[trigger] self.issues@[k]).level != IssueLevel::Error,
            decreases self.issues.len() - i,
        {
            if self.issues[i].level == IssueLevel::Error {
                return true;
            }
            i += 1;
        }
        false
    }

    /// Whether there is no issue.
    pub fn is_empty(&self) -> (yes: bool)
        ensures
            yes == (self.issues@.len() == 0),
    {
        self.issues.len() == 0
    }

    fn lines(&self, level: Option<IssueLevel>) -> (lines: Vec<String>)
        ensures
            text::texts(lines@) == issue_lines(self.issues@, level),
    {
        let mut lines: Vec<String> = Vec::new();
        let mut i: usize = 0;
        assert(text::texts(lines@) =~= Seq::empty());
        while i < self.issues.len()
            invariant
                i <= self.issues@.len(),
                text::texts(lines@) == issue_lines(self.issues@.take(i as int), level),
            decreases self.issues.len() - i,
        {
            proof {
                let next = self.issues@.take(i + 1);
                assert(next.drop_last() =~= self.issues@.take(i as int));
                assert(next.last() == self.issues@[i as int]);
            }
            let issue: &ValidationIssue = &self.issues[i];
            let wanted: bool = match level {
                None => true,
                Some(level) => issue.level == level,
            };
            if wanted {
                let mut line: String = "[".to_owned();
                line.append(issue.target.as_str());
                line.append("] ");
                line.append(issue.message.as_str());
                let ghost prev = text::texts(lines@);
                lines.push(line);
                assert(text::texts(lines@) =~= prev.push(issue_line(*issue)));
            }
            i += 1;
        }
        assert(self.issues@.take(self.issues@.len() as int) =~= self.issues@);
        lines
    }

    /// The issues of a level, joined.
    pub fn joined(&self, level: IssueLevel) -> (message: String)
        ensures
            message@ == text::joined(issue_lines(self.issues@, Some(level)), "; "@),
    {
        join(&self.lines(Some(level)), "; ")
    }

    /// Refuses a report with errors, joining them.
    pub fn raise_if_errors(&self) -> (result: Result<(), ValidationError>)
        ensures
            match result {
                Ok(_) => !any_error(self.issues@),
                Err(error) => any_error(self.issues@) && error.0@ == text::joined(
                    issue_lines(self.issues@, Some(IssueLevel::Error)),
                    "; "@,
                ),
            },
    {
        if self.has_errors() {
            Err(ValidationError(self.joined(IssueLevel::Error)))
        } else {
            Ok(())
        }
    }
}

/// Checks definitions.
#[derive(Debug, Clone, Copy)]
pub struct OrchestrationValidator {
    /// Whether warnings are refused too.
    pub fail_on_warning: bool,
}

/// The lists of a map, in order of their keys.
pub open spec fn rows_of(graph: TextMap<Vec<String>>) -> Seq<Seq<Seq<char>>> {
    Seq::new(graph.entries@.len(), |i: int| text::texts(graph.entries@[i].1@))
}

/// The messages about the unknown dependencies of one node.
pub open spec fn unknown_in(
    known: Seq<Seq<char>>,
    node: Seq<char>,
    deps: Seq<Seq<char>>,
) -> Seq<Seq<char>>
    decreases deps.len(),
{
    if deps.len() == 0 {
        Seq::empty()
    } else {
        let front = unknown_in(known, node, deps.drop_last());
        if names::place(known, deps.last()) < 0 {
            front.push(
                "node "@ + text::debug_text(node) + " depends on unknown "@ + text::debug_text(
                    deps.last(),
                ),
            )
        } else {
            front
        }
    }
}

/// The messages about unknown dependencies, node by node.
pub open spec fn unknown_messages(known: Seq<Seq<char>>, rows: Seq<Seq<Seq<char>>>) -> Seq<
    Seq<char>,
>
    decreases rows.len(),
{
    if rows.len() == 0 {
        Seq::empty()
    } else {
        unknown_messages(known, rows.drop_last()) + unknown_in(
            known,
            known[rows.len() - 1],
            rows.last(),
        )
    }
}

/// The graph in which nodes are drained: an unknown dependency holds its node
/// back for good.
pub open spec fn drain_graph(known: Seq<Seq<char>>, rows: Seq<Seq<Seq<char>>>) -> Seq<Seq<usize>> {
    Seq::new(
        rows.len(),
        |i: int|
            Seq::new(
                rows[i].len(),
                |k: int|
                    if names::place(known, rows[i][k]) < 0 {
                        i as usize
                    } else {
                        names::place(known, rows[i][k]) as usize
                    },
            ),
    )
}

/// The layers of a graph.
pub open spec fn layering(g: Seq<Seq<usize>>) -> Seq<Seq<usize>> {
    choose|ls: Seq<Seq<usize>>| graph::layered(g, ls)
}

/// The nodes of a graph that are never ready.
pub open spec fn undrained(g: Seq<Seq<usize>>) -> Seq<usize> {
    graph::left_out(g, graph::flat(layering(g)))
}

/// The names of some nodes.
pub open spec fn names_at(known: Seq<Seq<char>>, list: Seq<usize>) -> Seq<Seq<char>> {
    Seq::new(list.len(), |i: int| known[list[i] as int])
}

/// The messages about a dependency graph.
pub open spec fn dag_messages(graph: TextMap<Vec<String>>) -> Seq<Seq<char>> {
    let known = text_map::keys_of(graph.entries@);
    let unknown = unknown_messages(known, rows_of(graph));
    let rest = undrained(drain_graph(known, rows_of(graph)));
    if graph.entries@.len() == 0 {
        seq!["no steps defined"@]
    } else if unknown.len() > 0 {
        unknown
    } else if rest.len() > 0 {
        seq!["dependency cycle: "@ + text::joined(names_at(known, rest), " -> "@)]
    } else {
        Seq::empty()
    }
}

/// Whether a report states these messages, each as an error of the target.
pub open spec fn reports(
    report: ValidationReport,
    target: Seq<char>,
    messages: Seq<Seq<char>>,
) -> bool {
    &&& report.issues@.len() == messages.len()
    &&& forall|i: int|
        0 <= i < messages.len() ==> {
            &&& (#[trigger] report.issues@[i]).target@ == target
            &&& report.issues@[i].level == IssueLevel::Error
            &&& report.issues@[i].message@ == messages[i]
        }
}

fn drain_rows(graph: &TextMap<Vec<String>>) -> (rows: Vec<Vec<usize>>)
    requires
        graph.well_formed(),
    ensures
        graph::lists(rows@) == drain_graph(
            text_map::keys_of(graph.entries@),
            rows_of(*graph),
        ),
        graph::closed_graph(graph::lists(rows@)),
{
    let ghost known = text_map::keys_of(graph.entries@);
    let ghost want = drain_graph(known, rows_of(*graph));
    let keys: Vec<String> = graph.keys();
    let mut out: Vec<Vec<usize>> = Vec::new();
    let mut i: usize = 0;
    assert(keys@.len() == text::texts(keys@).len());
    while i < graph.entries.len()
        invariant
            i <= graph.entries@.len(),
            keys@.len() == graph.entries@.len(),
            known == text_map::keys_of(graph.entries@),
            text::texts(keys@) == known,
            want == drain_graph(known, rows_of(*graph)),
            out@.len() == i,
            forall|a: int| 0 <= a < i ==> (#[trigger] out@[a])@ == want[a],
            forall|a: int, b: int|
                0 <= a < i && 0 <= b < out@[a]@.len() ==> (#[trigger] out@[a]@[b])
                    < graph.entries@.len(),
        decreases graph.entries.len() - i,
    {
        let mut row: Vec<usize> = Vec::new();
        let mut k: usize = 0;
        while k < graph.entries[i].1.len()
            invariant
                i < graph.entries@.len(),
                k <= graph.entries@[i as int].1@.len(),
                keys@.len() == graph.entries@.len(),
                known == text_map::keys_of(graph.entries@),
                text::texts(keys@) == known,
                want == drain_graph(known, rows_of(*graph)),
                row@.len() == k,
                forall|b: int| 0 <= b < k ==> #[trigger] row@[b] == want[i as int][b],
                forall|b: int| 0 <= b < k ==> (#[trigger] row@[b]) < graph.entries@.len(),
            decreases graph.entries@[i as int].1@.len() - k,
        {
            assert(rows_of(*graph)[i as int][k as int] == graph.entries@[i as int].1@[k as int]@);
            match find(&keys, graph.entries[i].1[k].as_str()) {
                Some(p) => row.push(p),
                None => row.push(i),
            }
            k += 1;
        }
        assert(row@ =~= want[i as int]);
        out.push(row);
        i += 1;
    }
    proof {
        assert(graph::lists(out@) =~= want);
        assert forall|a: int, b: int|
            0 <= a < want.len() && 0 <= b < want[a].len() implies (#[trigger] want[a][b])
            < want.len() by {
            assert(out@[a]@[b] < graph.entries@.len());
        }
    }
    out
}

/// The names of the nodes that remain when every node whose dependencies are
/// drained has been drained, in increasing order; none where all are drained.
pub fn first_cycle(graph: &TextMap<Vec<String>>) -> (cycle: Option<Vec<String>>)
    requires
        graph.well_formed(),
    ensures
        ({
            let known = text_map::keys_of(graph.entries@);
            let rest = undrained(drain_graph(known, rows_of(*graph)));
            match cycle {
                Some(list) => rest.len() > 0 && text::texts(list@) == names_at(known, rest),
                None => rest.len() == 0,
            }
        }),
{
    let ghost known = text_map::keys_of(graph.entries@);
    let rows: Vec<Vec<usize>> = drain_rows(graph);
    let ls: Vec<Vec<usize>> = layers(&rows);
    let order: Vec<usize> = flatten(&ls);
    let ghost g = graph::lists(rows@);
    proof {
        assert(rows@.len() == rows.len());
        assert(graph::layered(g, graph::lists(ls@)));
        graph::lemma_layered_unique(g, graph::lists(ls@), layering(g));
        graph::lemma_layers_grow(g, graph::lists(ls@));
        graph::lemma_layered_order(g, graph::lists(ls@));
        assert forall|k: int| 0 <= k < order@.len() implies (#[trigger] order@[k]) < g.len() by {
            assert(graph::ready(g, graph::members(order@.take(k)), order@[k] as int));
        }
        graph::lemma_left_out(g, order@);
    }
    let rest: Vec<usize> = remaining(&rows, &order);
    if rest.len() == 0 {
        return None;
    }
    let mut out: Vec<String> = Vec::new();
    let mut i: usize = 0;
    proof {
        assert forall|k: int| 0 <= k < rest@.len() implies (#[trigger] rest@[k])
            < graph.entries@.len() by {
            assert(graph::members(rest@).contains(rest@[k] as int));
        }
    }
    while i < rest.len()
        invariant
            i <= rest@.len(),
            known == text_map::keys_of(graph.entries@),
            forall|k: int| 0 <= k < rest@.len() ==> (#[trigger] rest@[k]) < graph.entries@.len(),
            out@.len() == i,
            forall|k: int| 0 <= k < i ==> (#[trigger] out@[k])@ == known[rest@[k] as int],
        decreases rest.len() - i,
    {
        out.push(graph.entries[rest[i]].0.clone());
        i += 1;
    }
    assert(text::texts(out@) =~= names_at(known, rest@));
    Some(out)
}

impl OrchestrationValidator {
    /// A validator that refuses errors only.
    pub fn new() -> (validator: OrchestrationValidator)
        ensures
            !validator.fail_on_warning,
    {
        OrchestrationValidator { fail_on_warning: false }
    }

    /// The validator, refusing warnings too or not.
    pub fn fail_on_warning(self, fail: bool) -> (validator: OrchestrationValidator)
        ensures
            validator.fail_on_warning == fail,
    {
        OrchestrationValidator { fail_on_warning: fail }
    }

    /// Checks that a dependency graph has nodes, that every dependency is a
    /// node, and that there is no cycle.
    pub fn validate_dag(&self, target: &str, graph: &TextMap<Vec<String>>) -> (report:
        ValidationReport)
        requires
            graph.well_formed(),
        ensures
            reports(report, target@, dag_messages(*graph)),
            forall|i: int|
                0 <= i < report.issues@.len() ==> (#[trigger] report.issues@[i]).level
                    == IssueLevel::Error && report.issues@[i].target@ == target@,
    {
        let mut report: ValidationReport = ValidationReport::new();
        if graph.is_empty() {
            report.issues.push(
                ValidationIssue {
                    target: target.to_owned(),
                    level: IssueLevel::Error,
                    message: "no steps defined".to_owned(),
                },
            );
            return report;
        }
        let ghost known = text_map::keys_of(graph.entries@);
        let ghost rows = rows_of(*graph);
        let mut i: usize = 0;
        while i < graph.entries.len()
            invariant
                i <= graph.entries@.len(),
                known == text_map::keys_of(graph.entries@),
                rows == rows_of(*graph),
                reports(report, target@, unknown_messages(known, rows.take(i as int))),
            decreases graph.entries.len() - i,
        {
            let ghost base = unknown_messages(known, rows.take(i as int));
            let entry: &(String, Vec<String>) = &graph.entries[i];
            let ghost deps = text::texts(entry.1@);
            let mut k: usize = 0;
            assert(base + unknown_in(known, entry.0@, deps.take(0)) =~= base);
            while k < entry.1.len()
                invariant
                    i < graph.entries@.len(),
                    *entry == graph.entries@[i as int],
                    k <= entry.1@.len(),
                    known == text_map::keys_of(graph.entries@),
                    deps == text::texts(entry.1@),
                    reports(report, target@, base + unknown_in(known, entry.0@, deps.take(k as int))),
                decreases entry.1.len() - k,
            {
                proof {
                    let next = deps.take(k + 1);
                    assert(next.drop_last() =~= deps.take(k as int));
                    assert(next.last() == entry.1@[k as int]@);
                }
                if !graph.contains_key(entry.1[k].as_str()) {
                    let mut message: String = "node ".to_owned();
                    message.append(quoted(entry.0.as_str()).as_str());
                    message.append(" depends on unknown ");
                    message.append(quoted(entry.1[k].as_str()).as_str());
                    report.issues.push(
                        ValidationIssue {
                            target: target.to_owned(),
                            level: IssueLevel::Error,
                            message,
                        },
                    );
                }
                k += 1;
            }
            proof {
                assert(deps.take(deps.len() as int) =~= deps);
                let next = rows.take(i + 1);
                assert(next.drop_last() =~= rows.take(i as int));
                assert(next.last() == deps);
                assert(known[i as int] == entry.0@);
            }
            i += 1;
        }
        assert(rows.take(rows.len() as int) =~= rows);
        proof {
            if report.issues@.len() > 0 {
                assert(report.issues@[0].level == IssueLevel::Error);
            }
        }
        if !report.has_errors() {
            if let Some(cycle) = first_cycle(graph) {
                let mut message: String = "dependency cycle: ".to_owned();
                message.append(join(&cycle, " -> ").as_str());
                report.issues.push(
                    ValidationIssue {
                        target: target.to_owned(),
                        level: IssueLevel::Error,
                        message,
                    },
                );
            }
        }
        report
    }

    /// Refuses a report with errors, or, where warnings are refused too, with
    /// any issue.
    pub fn fail_if_needed(&self, report: &ValidationReport) -> (result: Result<
        (),
        ValidationError,
    >)
        ensures
            match result {
                Ok(_) => !any_error(report.issues@) && (self.fail_on_warning
                    ==> report.issues@.len() == 0),
                Err(error) => if self.fail_on_warning {
                    &&& report.issues@.len() > 0
                    &&& error.0@ == text::joined(issue_lines(report.issues@, None), "; "@)
                } else {
                    &&& any_error(report.issues@)
                    &&& error.0@ == text::joined(
                        issue_lines(report.issues@, Some(IssueLevel::Error)),
                        "; "@,
                    )
                },
            },
    {
        if self.fail_on_warning && !report.is_empty() {
            let all: Vec<String> = report.lines(None);
            return Err(ValidationError(join(&all, "; ")));
        }
        report.raise_if_errors()
    }
}

/// A report on a graph is empty exactly when the graph has nodes, every
/// dependency is a node, and there is no cycle.
pub proof fn law_clean_report_means_a_dag(graph: TextMap<Vec<String>>)
    requires
        graph.well_formed(),
        graph.entries@.len() <= usize::MAX,
    ensures
        ({
            let known = text_map::keys_of(graph.entries@);
            let rows = rows_of(graph);
            dag_messages(graph).len() == 0 <==> graph.entries@.len() > 0 && names::faultless(
                known,
                rows,
                false,
            ) && !graph::cyclic(names::resolved(known, rows))
        }),
{
    let known = text_map::keys_of(graph.entries@);
    let rows = rows_of(graph);
    lemma_unknown_messages(known, rows);
    if names::faultless(known, rows, false) {
        let g = names::resolved(known, rows);
        let d = drain_graph(known, rows);
        assert(g =~= d) by {
            assert forall|i: int| 0 <= i < g.len() implies g[i] =~= #[trigger] d[i] by {
                assert forall|k: int| 0 <= k < g[i].len() implies g[i][k] == #[trigger] d[i][k] by {
                    assert(!names::faulty(known, rows, false, i, k));
                }
            }
        }
        names::lemma_resolved_closed(known, rows);
        lemma_layering_exists(g);
        let ls = layering(g);
        graph::lemma_layered_order(g, ls);
        graph::lemma_layers_grow(g, ls);
        let order = graph::flat(ls);
        assert forall|k: int| 0 <= k < order.len() implies (#[trigger] order[k]) < g.len() by {
            assert(graph::ready(g, graph::members(order.take(k)), order[k] as int));
        }
        graph::lemma_left_out(g, order);
    }
}

proof fn lemma_unknown_in(known: Seq<Seq<char>>, node: Seq<char>, deps: Seq<Seq<char>>)
    ensures
        unknown_in(known, node, deps).len() == 0 <==> forall|k: int|
            0 <= k < deps.len() ==> names::place(known, #[trigger] deps[k]) >= 0,
    decreases deps.len(),
{
    if deps.len() > 0 {
        let front = deps.drop_last();
        lemma_unknown_in(known, node, front);
        if unknown_in(known, node, deps).len() == 0 {
            assert forall|k: int| 0 <= k < deps.len() implies names::place(
                known,
                #[trigger] deps[k],
            ) >= 0 by {
                if k < front.len() {
                    assert(front[k] == deps[k]);
                }
            }
        } else if unknown_in(known, node, front).len() > 0 {
            let k = choose|k: int|
                0 <= k < front.len() && names::place(known, #[trigger] front[k]) < 0;
            assert(deps[k] == front[k]);
        } else {
            assert(deps[deps.len() - 1] == deps.last());
        }
    }
}

proof fn lemma_unknown_messages(known: Seq<Seq<char>>, rows: Seq<Seq<Seq<char>>>)
    ensures
        unknown_messages(known, rows).len() == 0 <==> names::faultless(known, rows, false),
    decreases rows.len(),
{
    if rows.len() > 0 {
        let front = rows.drop_last();
        lemma_unknown_messages(known, front);
        lemma_unknown_in(known, known[rows.len() - 1], rows.last());
        if unknown_messages(known, rows).len() == 0 {
            assert forall|i: int, k: int|
                0 <= i < rows.len() && 0 <= k < rows[i].len() implies !(#[trigger] names::faulty(
                known,
                rows,
                false,
                i,
                k,
            )) by {
                if i < front.len() {
                    assert(front[i] == rows[i]);
                    assert(!names::faulty(known, front, false, i, k));
                } else {
                    assert(names::place(known, rows.last()[k]) >= 0);
                }
            }
        }
        if names::faultless(known, rows, false) {
            assert forall|i: int, k: int|
                0 <= i < front.len() && 0 <= k < front[i].len() implies !(#[trigger] names::faulty(
                known,
                front,
                false,
                i,
                k,
            )) by {
                assert(front[i] == rows[i]);
                assert(!names::faulty(known, rows, false, i, k));
            }
            assert forall|k: int| 0 <= k < rows.last().len() implies names::place(
                known,
                #[trigger] rows.last()[k],
            ) >= 0 by {
                assert(!names::faulty(known, rows, false, rows.len() - 1, k));
            }
        }
    }
}

proof fn lemma_layering_exists(g: Seq<Seq<usize>>)
    requires
        g.len() <= usize::MAX,
        graph::closed_graph(g),
    ensures
        graph::layered(g, layering(g)),
{
    graph::lemma_layering_from(g, Seq::empty());
}

/// An unknown dependency is reported, and nothing else is: a message stands for
/// a dependency of the node that is no node.
pub proof fn law_unknown_dependencies_are_reported(
    known: Seq<Seq<char>>,
    node: Seq<char>,
    deps: Seq<Seq<char>>,
    dep: Seq<char>,
)
    ensures
        unknown_in(known, node, Seq::empty()).len() == 0,
        known.contains(dep) ==> unknown_in(known, node, deps.push(dep)) == unknown_in(
            known,
            node,
            deps,
        ),
        !known.contains(dep) ==> unknown_in(known, node, deps.push(dep)) == unknown_in(
            known,
            node,
            deps,
        ).push(
            "node "@ + text::debug_text(node) + " depends on unknown "@ + text::debug_text(dep),
        ),
{
    assert(deps.push(dep).drop_last() =~= deps);
    names::lemma_place(known, dep);
    if names::place(known, dep) >= 0 {
        assert(known[names::place(known, dep)] == dep);
    }
}

/// The lines of a level are those of its issues, and without a level those of
/// all, in the order of the issues.
pub proof fn law_lines_select_their_level(
    issues: Seq<ValidationIssue>,
    issue: ValidationIssue,
    level: IssueLevel,
)
    ensures
        issue_lines(Seq::empty(), None).len() == 0,
        issue_lines(Seq::empty(), Some(level)).len() == 0,
        issue_lines(issues.push(issue), None) == issue_lines(issues, None).push(
            "["@ + issue.target@ + "] "@ + issue.message@,
        ),
        issue.level == level ==> issue_lines(issues.push(issue), Some(level)) == issue_lines(
            issues,
            Some(level),
        ).push("["@ + issue.target@ + "] "@ + issue.message@),
        issue.level != level ==> issue_lines(issues.push(issue), Some(level)) == issue_lines(
            issues,
            Some(level),
        ),
{
    assert(issues.push(issue).drop_last() =~= issues);
}

/// A graph is faulty in one way at a time: without nodes in that alone, else
/// by its unknown dependencies alone, and by a cycle only where all
/// dependencies are known; a clean report means that every dependency is a
/// node.
pub proof fn law_reports_give_the_first_kind_of_fault(
    graph: TextMap<Vec<String>>,
    i: int,
    k: int,
)
    requires
        graph.well_formed(),
        0 <= i < graph.entries@.len(),
        0 <= k < graph.entries@[i].1@.len(),
    ensures
        !text_map::keys_of(graph.entries@).contains(graph.entries@[i].1@[k]@) ==> {
            &&& dag_messages(graph).len() > 0
            &&& dag_messages(graph) == unknown_messages(
                text_map::keys_of(graph.entries@),
                rows_of(graph),
            )
        },
{
    let known = text_map::keys_of(graph.entries@);
    let rows = rows_of(graph);
    lemma_unknown_messages(known, rows);
    names::lemma_place(known, rows[i][k]);
    assert(rows[i][k] == graph.entries@[i].1@[k]@);
    if !known.contains(rows[i][k]) {
        assert(names::faulty(known, rows, false, i, k)) by {
            let p = names::place(known, rows[i][k]);
            if p >= 0 {
                assert(known[p] == rows[i][k]);
            }
        }
    }
}

/// A node is left over exactly when something that it depends on is: an
/// unknown dependency, or a node that is left over itself.
pub proof fn law_left_over_nodes_wait_for_each_other(
    known: Seq<Seq<char>>,
    rows: Seq<Seq<Seq<char>>>,
    i: int,
)
    requires
        known.len() == rows.len(),
        rows.len() <= usize::MAX,
        0 <= i < rows.len(),
    ensures
        graph::members(undrained(drain_graph(known, rows))).contains(i) <==> exists|k: int|
            0 <= k < rows[i].len() && (!known.contains(#[trigger] rows[i][k]) || graph::members(
                undrained(drain_graph(known, rows)),
            ).contains(names::place(known, rows[i][k]))),
{
    let g = drain_graph(known, rows);
    assert forall|a: int, b: int| 0 <= a < g.len() && 0 <= b < g[a].len() implies (
    #[trigger] g[a][b]) < g.len() by {
        names::lemma_place(known, rows[a][b]);
    }
    assert(graph::closed_graph(g));
    lemma_layering_exists(g);
    let ls = layering(g);
    let order = graph::flat(ls);
    graph::lemma_layered_order(g, ls);
    graph::lemma_layers_grow(g, ls);
    assert forall|k: int| 0 <= k < order.len() implies (#[trigger] order[k]) < g.len() by {
        assert(graph::ready(g, graph::members(order.take(k)), order[k] as int));
    }
    graph::lemma_left_out(g, order);
    let done = graph::members(order);
    graph::lemma_ready_list(g, done);
    let left = graph::members(undrained(g));
    assert(left.contains(i) <==> !done.contains(i));
    if !done.contains(i) {
        let list = graph::ready_list(g, graph::after(Set::empty(), ls));
        assert(graph::members(list) =~= Set::<int>::empty());
        assert(!graph::ready(g, done, i)) by {
            if graph::ready(g, done, i) {
                assert(graph::members(list).contains(i));
            }
        }
        let k = choose|k: int| 0 <= k < g[i].len() && !done.contains(#[trigger] g[i][k] as int);
        names::lemma_place(known, rows[i][k]);
        if known.contains(rows[i][k]) {
            assert(g[i][k] as int == names::place(known, rows[i][k]));
            assert(left.contains(g[i][k] as int));
        }
        assert(!known.contains(rows[i][k]) || left.contains(names::place(known, rows[i][k])));
    } else {
        let m = choose|m: int| 0 <= m < order.len() && #[trigger] order[m] == i;
        assert forall|k: int| 0 <= k < rows[i].len() implies known.contains(
            #[trigger] rows[i][k],
        ) && !left.contains(names::place(known, rows[i][k])) by {
            assert(graph::needs(g, order[m] as int, g[i][k] as int));
            assert(graph::members(order.take(m)).contains(g[i][k] as int));
            let x = choose|x: int|
                0 <= x < order.take(m).len() && #[trigger] order.take(m)[x] == g[i][k] as int;
            assert(order[x] == g[i][k]);
            names::lemma_place(known, rows[i][k]);
            if names::place(known, rows[i][k]) < 0 {
                assert(order[x] == order[m]);
            } else {
                assert(known[names::place(known, rows[i][k])] == rows[i][k]);
                assert(done.contains(g[i][k] as int));
            }
        }
    }
}

/// What a report on a graph says: that there are no steps, or, where all
/// dependencies are known, which nodes wait for each other.
pub proof fn law_reports_name_the_cycle(graph: TextMap<Vec<String>>)
    ensures
        graph.entries@.len() == 0 ==> dag_messages(graph) == seq!["no steps defined"@],
        ({
            let known = text_map::keys_of(graph.entries@);
            let rest = undrained(drain_graph(known, rows_of(graph)));
            graph.entries@.len() > 0 && unknown_messages(known, rows_of(graph)).len() == 0
                ==> if rest.len() == 0 {
                dag_messages(graph).len() == 0
            } else {
                dag_messages(graph) == seq![
                    "dependency cycle: "@ + text::joined(
                        Seq::new(rest.len(), |i: int| known[rest[i] as int]),
                        " -> "@,
                    ),
                ]
            }
        }),
{
}

} // verus!
