//! Naming rules of the `generate` command: where the review body is read
//! from and where the page is written to.

use vstd::prelude::*;

use crate::pull_request::PullRequestRef;
use crate::text::{decimal, lemma_parse_decimal, parse_u64_spec, push_decimal};

verus! {

/// Whether `path` is the path `-`, compared as `std::path::Path` compares
/// paths: by components. Such a path is `-` followed only by separators and
/// `.` components (`-`, `-/`, `-//.` all count; `./-` and `-/..` do not).
pub open spec fn is_stdin_path(p: Seq<char>) -> bool {
    let rest = p.skip(1);
    &&& p.len() >= 1
    &&& p[0] == '-'
    &&& (rest.len() == 0 || rest[0] == '/')
    &&& forall|i: int| 0 <= i < rest.len() ==> (#[trigger] rest[i] == '/' || rest[i] == '.')
    &&& forall|i: int| 0 <= i < rest.len() - 1 ==> !(#[trigger] rest[i] == '.' && rest[i + 1] == '.')
}

/// `OWNER-REPO-NUMBER-guided-review.html`.
pub open spec fn default_output_spec(owner: Seq<char>, repository: Seq<char>, number: u64) -> Seq<
    char,
> {
    owner + "-"@ + repository + "-"@ + decimal(number as nat) + "-guided-review.html"@
}

/// Whether the review body is read from standard input: the path is `-`.
pub fn reads_stdin(path: &str) -> (r: bool)
    ensures
        r == is_stdin_path(path@),
{
    let n = path.unicode_len();
    if n == 0 || path.get_char(0) != '-' {
        return false;
    }
    if n > 1 && path.get_char(1) != '/' {
        assert(path@.skip(1)[0] == path@[1]);
        return false;
    }
    let ghost rest = path@.skip(1);
    let mut i: usize = 1;
    while i < n
        invariant
            n == path@.len(),
            n >= 1,
            rest == path@.skip(1),
            1 <= i <= n,
            forall|j: int| 0 <= j < i - 1 ==> (#[trigger] rest[j] == '/' || rest[j] == '.'),
            forall|j: int| 0 <= j < i - 2 ==> !(#[trigger] rest[j] == '.' && rest[j + 1] == '.'),
        decreases n - i,
    {
        let c = path.get_char(i);
        assert(rest[i - 1] == c);
        if c != '/' && c != '.' {
            return false;
        }
        if c == '.' && i >= 2 && path.get_char(i - 1) == '.' {
            assert(rest[i - 2] == '.' && rest[i - 1] == '.');
            return false;
        }
        i = i + 1;
    }
    true
}

/// How the review input is named in messages: `stdin` for `-`, otherwise
/// the path itself.
pub fn display_input(path: &str) -> (r: String)
    ensures
        r@ == (if is_stdin_path(path@) {
            "stdin"@
        } else {
            path@
        }),
{
    if reads_stdin(path) {
        String::from_str("stdin")
    } else {
        String::from_str(path)
    }
}

/// Where the page goes when no `--output` is given:
/// `OWNER-REPO-NUMBER-guided-review.html` in the current directory.
pub fn default_output_path(pull_request: &PullRequestRef) -> (r: String)
    ensures
        r@ == default_output_spec(
            pull_request.owner@,
            pull_request.repository@,
            pull_request.number,
        ),
{
    let mut out = String::from_str(pull_request.owner.as_str());
    out.append("-");
    out.append(pull_request.repository.as_str());
    out.append("-");
    push_decimal(&mut out, pull_request.number);
    out.append("-guided-review.html");
    out
}

} // verus!

verus! {

/// The default output name carries the owner, the repository and the full
/// number: it is `OWNER-REPO-`, then a text that reads back as the pull
/// request's number, then `-guided-review.html`.
pub proof fn lemma_default_output_reads_back(owner: Seq<char>, repository: Seq<char>, number: u64)
    ensures
        ({
            let name = default_output_spec(owner, repository, number);
            let head = owner + seq!['-'] + repository + seq!['-'];
            let tail = "-guided-review.html"@;
            &&& name.len() >= head.len() + tail.len()
            &&& name.subrange(0, head.len() as int) == head
            &&& name.skip(name.len() - tail.len()) == tail
            &&& parse_u64_spec(name.subrange(head.len() as int, name.len() - tail.len()))
                == Some(number)
        }),
{
    reveal_strlit("-");
    lemma_parse_decimal(number);
    let name = default_output_spec(owner, repository, number);
    let head = owner + seq!['-'] + repository + seq!['-'];
    let tail = "-guided-review.html"@;
    let d = decimal(number as nat);
    assert(name =~= head + d + tail);
    assert(name.subrange(0, head.len() as int) =~= head);
    assert(name.skip(name.len() - tail.len()) =~= tail);
    assert(name.subrange(head.len() as int, name.len() - tail.len()) =~= d);
}

} // verus!
