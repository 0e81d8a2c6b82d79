//! Validation reports: where a value breaks a rule, and which rule.

use vstd::prelude::*;

use crate::text::{decimal, is_blank, is_blank_text, push_decimal};

verus! {

/// One broken rule: the path of the offending value and the message.
pub type Issue = (Seq<char>, Seq<char>);

/// A broken rule, as the report lists it.
#[derive(Clone, Debug)]
pub struct ValidationIssue {
    /// Where the value sits, such as `thesis.evidence[0].code`.
    pub path: String,
    /// What is wrong with it.
    pub message: String,
}

/// Every rule a value breaks, in the order the checks visit them.
#[derive(Clone, Debug)]
pub struct ValidationReport {
    pub issues: Vec<ValidationIssue>,
}

impl View for ValidationIssue {
    type V = Issue;

    open spec fn view(&self) -> Issue {
        (self.path@, self.message@)
    }
}

impl View for ValidationReport {
    type V = Seq<Issue>;

    open spec fn view(&self) -> Seq<Issue> {
        self.issues@.map_values(|i: ValidationIssue| i@)
    }
}

/// The path of field `key` below `path`.
pub open spec fn key_path(path: Seq<char>, key: Seq<char>) -> Seq<char> {
    if path.len() == 0 {
        key
    } else {
        path + "."@ + key
    }
}

/// The path of item `index` of the list at `path`.
pub open spec fn index_path(path: Seq<char>, index: nat) -> Seq<char> {
    path + "["@ + decimal(index) + "]"@
}

/// One line of the report text.
pub open spec fn issue_line(issue: Issue) -> Seq<char> {
    if issue.0.len() == 0 {
        issue.1 + "\n"@
    } else {
        issue.0 + ": "@ + issue.1 + "\n"@
    }
}

/// The report text: one line per issue, in order.
pub open spec fn report_text(issues: Seq<Issue>) -> Seq<char>
    decreases issues.len(),
{
    if issues.len() == 0 {
        Seq::empty()
    } else {
        report_text(issues.drop_last()) + issue_line(issues.last())
    }
}

/// A text that must not be blank.
pub open spec fn blank_issues(value: Seq<char>, path: Seq<char>) -> Seq<Issue> {
    if is_blank(value) {
        seq![(path, "must not be blank"@)]
    } else {
        Seq::empty()
    }
}

/// A list that must hold at least one item.
pub open spec fn min_len_issues(len: nat, path: Seq<char>) -> Seq<Issue> {
    if len < 1 {
        seq![(path, "length is lower than 1"@)]
    } else {
        Seq::empty()
    }
}

/// A number that must be at least 1.
pub open spec fn min_value_issues(value: u32, path: Seq<char>) -> Seq<Issue> {
    if value < 1 {
        seq![(path, "lower than 1"@)]
    } else {
        Seq::empty()
    }
}

/// A value that the validation walks into: the issues it has at a path,
/// the rules it must keep, and the check that finds those issues.
pub trait Checked: Sized {
    /// The issues of this value when it sits at `path`, in report order.
    spec fn issues_at(&self, path: Seq<char>) -> Seq<Issue>;

    /// The rules this value must keep.
    spec fn is_valid(&self) -> bool;

    /// A value has no issues exactly when it keeps its rules.
    proof fn lemma_issues_at(&self, path: Seq<char>)
        ensures
            self.issues_at(path).len() == 0 <==> self.is_valid(),
    ;

    /// Appends this value's issues at `path` to `report`.
    fn check_at(&self, path: &String, report: &mut ValidationReport)
        ensures
            final(report)@ == old(report)@ + self.issues_at(path@),
    ;
}

/// The issues of the items of a list at `path`, item by item.
pub open spec fn list_issues<T: Checked>(items: Seq<T>, path: Seq<char>) -> Seq<Issue>
    decreases items.len(),
{
    if items.len() == 0 {
        Seq::empty()
    } else {
        list_issues(items.drop_last(), path) + items.last().issues_at(
            index_path(path, (items.len() - 1) as nat),
        )
    }
}

/// A list has no issues exactly when each of its items keeps its rules.
pub proof fn lemma_list_issues<T: Checked>(items: Seq<T>, path: Seq<char>)
    ensures
        list_issues(items, path).len() == 0 <==> (forall|i: int|
            0 <= i < items.len() ==> #[trigger] items[i].is_valid()),
    decreases items.len(),
{
    if items.len() > 0 {
        let init = items.drop_last();
        let last = items.last();
        lemma_list_issues(init, path);
        last.lemma_issues_at(index_path(path, (items.len() - 1) as nat));
        if list_issues(items, path).len() == 0 {
            assert forall|i: int| 0 <= i < items.len() implies #[trigger] items[i].is_valid() by {
                if i < items.len() - 1 {
                    assert(items[i] == init[i]);
                }
            }
        }
        if forall|i: int| 0 <= i < items.len() ==> #[trigger] items[i].is_valid() {
            assert forall|i: int| 0 <= i < init.len() implies #[trigger] init[i].is_valid() by {
                assert(items[i] == init[i]);
            }
            assert(items[items.len() - 1].is_valid());
        }
    }
}

/// A text is valid when it is not blank; lists of texts use this rule.
impl Checked for String {
    open spec fn issues_at(&self, path: Seq<char>) -> Seq<Issue> {
        blank_issues(self@, path)
    }

    open spec fn is_valid(&self) -> bool {
        !is_blank(self@)
    }

    proof fn lemma_issues_at(&self, path: Seq<char>) {
    }

    fn check_at(&self, path: &String, report: &mut ValidationReport) {
        check_not_blank(self, path.clone(), report);
    }
}

impl ValidationReport {
    /// A report without issues.
    pub fn new() -> (r: ValidationReport)
        ensures
            r@ == Seq::<Issue>::empty(),
    {
        let r = ValidationReport { issues: Vec::new() };
        assert(r@ =~= Seq::<Issue>::empty());
        r
    }

    /// Records that the value at `path` breaks the rule `message`.
    pub fn add(&mut self, path: String, message: String)
        ensures
            final(self)@ == old(self)@.push((path@, message@)),
    {
        let issue = ValidationIssue { path, message };
        self.issues.push(issue);
        assert(final(self)@ =~= old(self)@.push((issue.path@, issue.message@)));
    }

    /// Whether no rule is broken.
    pub fn is_empty(&self) -> (r: bool)
        ensures
            r == (self@.len() == 0),
    {
        self.issues.len() == 0
    }

    /// The report as text: one `path: message` line per issue.
    pub fn message(&self) -> (r: String)
        ensures
            r@ == report_text(self@),
    {
        let mut out = String::new();
        let n = self.issues.len();
        let mut i: usize = 0;
        assert(self@.take(0) =~= Seq::<Issue>::empty());
        while i < n
            invariant
                n == self.issues@.len(),
                i <= n,
                out@ == report_text(self@.take(i as int)),
            decreases n - i,
        {
            let issue = &self.issues[i];
            if issue.path.unicode_len() == 0 {
                out.append(issue.message.as_str());
                out.append("\n");
            } else {
                out.append(issue.path.as_str());
                out.append(": ");
                out.append(issue.message.as_str());
                out.append("\n");
            }
            assert(self@.take(i + 1).drop_last() =~= self@.take(i as int));
            assert(self@.take(i + 1).last() == issue@);
            assert(out@ =~= report_text(self@.take(i + 1)));
            i = i + 1;
        }
        assert(self@.take(n as int) =~= self@);
        out
    }
}

/// The path of field `key` below `path`.
pub fn key_text(path: &String, key: &str) -> (r: String)
    ensures
        r@ == key_path(path@, key@),
{
    if path.unicode_len() == 0 {
        String::from_str(key)
    } else {
        let mut out = path.clone();
        out.append(".");
        out.append(key);
        out
    }
}

/// The path of item `index` of the list at `path`.
pub fn index_text(path: &String, index: usize) -> (r: String)
    ensures
        r@ == index_path(path@, index as nat),
{
    let mut out = path.clone();
    out.append("[");
    push_decimal(&mut out, index as u64);
    out.append("]");
    out
}

/// Reports `path` when `value` is blank.
pub fn check_not_blank(value: &String, path: String, report: &mut ValidationReport)
    ensures
        final(report)@ == old(report)@ + blank_issues(value@, path@),
{
    if is_blank_text(value.as_str()) {
        report.add(path, String::from_str("must not be blank"));
    }
    assert(final(report)@ =~= old(report)@ + blank_issues(value@, path@));
}

/// Reports `path` when the list there is empty.
pub fn check_not_empty(len: usize, path: String, report: &mut ValidationReport)
    ensures
        final(report)@ == old(report)@ + min_len_issues(len as nat, path@),
{
    if len < 1 {
        report.add(path, String::from_str("length is lower than 1"));
    }
    assert(final(report)@ =~= old(report)@ + min_len_issues(len as nat, path@));
}

/// Reports `path` when the number there is 0.
pub fn check_at_least_one(value: u32, path: String, report: &mut ValidationReport)
    ensures
        final(report)@ == old(report)@ + min_value_issues(value, path@),
{
    if value < 1 {
        report.add(path, String::from_str("lower than 1"));
    }
    assert(final(report)@ =~= old(report)@ + min_value_issues(value, path@));
}

/// Checks each item of `items`, the list at `path`, in order.
pub fn check_list<T: Checked>(items: &Vec<T>, path: &String, report: &mut ValidationReport)
    ensures
        final(report)@ == old(report)@ + list_issues(items@, path@),
{
    let n = items.len();
    let mut i: usize = 0;
    assert(items@.take(0) =~= Seq::<T>::empty());
    assert(old(report)@ + list_issues(items@.take(0), path@) =~= old(report)@);
    while i < n
        invariant
            n == items@.len(),
            i <= n,
            report@ == old(report)@ + list_issues(items@.take(i as int), path@),
        decreases n - i,
    {
        let item_path = index_text(path, i);
        let ghost before = report@;
        items[i].check_at(&item_path, report);
        let ghost next = items@.take(i + 1);
        assert(next.drop_last() =~= items@.take(i as int));
        assert(next.last() == items@[i as int]);
        assert(list_issues(next, path@) == list_issues(items@.take(i as int), path@)
            + items@[i as int].issues_at(index_path(path@, i as nat)));
        assert(report@ =~= old(report)@ + list_issues(next, path@));
        i = i + 1;
    }
    assert(items@.take(n as int) =~= items@);
}

} // verus!

verus! {

/// Appending issues in two steps appends them joined.
pub proof fn lemma_report_grows(start: Seq<Issue>, done: Seq<Issue>, next: Seq<Issue>)
    ensures
        (start + done) + next == start + (done + next),
{
    assert((start + done) + next =~= start + (done + next));
}

} // verus!
