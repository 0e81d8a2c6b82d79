//! `OWNER/REPO#NUMBER` references to GitHub pull requests.

use vstd::prelude::*;

use crate::text::{
    char_is_whitespace, contains_char, decimal, find_char, first_index, has_edge_whitespace,
    is_ascii_alphanumeric, is_first, is_whitespace, lemma_decimal_roundtrip, lemma_first_index,
    lemma_parse_decimal, parse_u64, parse_u64_spec, push_decimal, is_ascii_digit,
};

verus! {

/// A GitHub pull request, named by owner, repository and number.
#[derive(Clone, Debug, PartialEq, Eq)]
pub struct PullRequestRef {
    pub owner: String,
    pub repository: String,
    pub number: u64,
}

/// Why a text is not a pull request reference.
#[derive(Clone, Copy, Debug, PartialEq, Eq, Structural)]
pub enum PullRequestRefError {
    /// The text is not of the form `OWNER/REPO#NUMBER`.
    InvalidFormat,
    /// The part after `#` is not a positive integer.
    InvalidNumber,
}

impl View for PullRequestRef {
    type V = (Seq<char>, Seq<char>, u64);

    open spec fn view(&self) -> (Seq<char>, Seq<char>, u64) {
        (self.owner@, self.repository@, self.number)
    }
}

/// A character allowed in an owner name.
pub open spec fn is_owner_char(c: char) -> bool {
    is_ascii_alphanumeric(c) || c == '-'
}

/// A character allowed in a repository name.
pub open spec fn is_repository_char(c: char) -> bool {
    is_ascii_alphanumeric(c) || c == '-' || c == '_' || c == '.'
}

/// A GitHub owner: ASCII letters, digits and inner hyphens.
pub open spec fn valid_owner_spec(s: Seq<char>) -> bool {
    &&& s.len() > 0
    &&& s[0] != '-'
    &&& s[s.len() - 1] != '-'
    &&& forall|i: int| 0 <= i < s.len() ==> #[trigger] is_owner_char(s[i])
}

/// A GitHub repository: ASCII letters, digits, `-`, `_` and `.`.
pub open spec fn valid_repository_spec(s: Seq<char>) -> bool {
    &&& s.len() > 0
    &&& forall|i: int| 0 <= i < s.len() ==> #[trigger] is_repository_char(s[i])
}

/// What `PullRequestRef::from_str` makes of a text: the owner, the
/// repository and the number, or the error it reports.
pub open spec fn parse_spec(s: Seq<char>) -> Result<(Seq<char>, Seq<char>, u64), PullRequestRefError> {
    if has_edge_whitespace(s) || !s.contains('#') {
        Err(PullRequestRefError::InvalidFormat)
    } else {
        let h = first_index(s, '#');
        let slug = s.take(h);
        let number = s.skip(h + 1);
        if number.contains('#') || !slug.contains('/') {
            Err(PullRequestRefError::InvalidFormat)
        } else {
            let k = first_index(slug, '/');
            let owner = slug.take(k);
            let repository = slug.skip(k + 1);
            if repository.contains('/') || !valid_owner_spec(owner) || !valid_repository_spec(
                repository,
            ) {
                Err(PullRequestRefError::InvalidFormat)
            } else {
                match parse_u64_spec(number) {
                    Some(n) if n > 0 => Ok((owner, repository, n)),
                    _ => Err(PullRequestRefError::InvalidNumber),
                }
            }
        }
    }
}

/// `OWNER/REPO#NUMBER`, as `Display` writes a reference.
pub open spec fn display_spec(owner: Seq<char>, repository: Seq<char>, number: u64) -> Seq<char> {
    owner + "/"@ + repository + "#"@ + decimal(number as nat)
}

/// The pull request's page on GitHub.
pub open spec fn github_url_spec(owner: Seq<char>, repository: Seq<char>, number: u64) -> Seq<char> {
    "https://github.com/"@ + owner + "/"@ + repository + "/pull/"@ + decimal(number as nat)
}

/// Whether `value` is a valid GitHub owner name.
pub fn valid_owner(value: &str) -> (r: bool)
    ensures
        r == valid_owner_spec(value@),
{
    let n = value.unicode_len();
    if n == 0 || value.get_char(0) == '-' || value.get_char(n - 1) == '-' {
        return false;
    }
    let mut i: usize = 0;
    while i < n
        invariant
            n == value@.len(),
            i <= n,
            forall|j: int| 0 <= j < i ==> #[trigger] is_owner_char(value@[j]),
        decreases n - i,
    {
        let c = value.get_char(i);
        if !(('0' <= c && c <= '9') || ('a' <= c && c <= 'z') || ('A' <= c && c <= 'Z') || c
            == '-') {
            assert(!is_owner_char(value@[i as int]));
            return false;
        }
        i = i + 1;
    }
    true
}

/// Whether `value` is a valid GitHub repository name.
pub fn valid_repository(value: &str) -> (r: bool)
    ensures
        r == valid_repository_spec(value@),
{
    let n = value.unicode_len();
    if n == 0 {
        return false;
    }
    let mut i: usize = 0;
    while i < n
        invariant
            n == value@.len(),
            i <= n,
            forall|j: int| 0 <= j < i ==> #[trigger] is_repository_char(value@[j]),
        decreases n - i,
    {
        let c = value.get_char(i);
        if !(('0' <= c && c <= '9') || ('a' <= c && c <= 'z') || ('A' <= c && c <= 'Z') || c
            == '-' || c == '_' || c == '.') {
            assert(!is_repository_char(value@[i as int]));
            return false;
        }
        i = i + 1;
    }
    true
}

impl PullRequestRefError {
    /// The message shown for this error.
    pub fn message(&self) -> (r: &'static str)
        ensures
            r@ == (match self {
                PullRequestRefError::InvalidFormat => "expected OWNER/REPO#NUMBER (for example github/desktop#144)"@,
                PullRequestRefError::InvalidNumber => "pull request number must be a positive integer"@,
            }),
    {
        match self {
            PullRequestRefError::InvalidFormat => "expected OWNER/REPO#NUMBER (for example github/desktop#144)",
            PullRequestRefError::InvalidNumber => "pull request number must be a positive integer",
        }
    }
}

impl PullRequestRef {
    /// Reads `OWNER/REPO#NUMBER`. The text must not start or end with
    /// whitespace, must hold exactly one `#` and one `/` before it, a valid
    /// owner and repository, and a positive number after the `#`.
    pub fn parse(value: &str) -> (r: Result<PullRequestRef, PullRequestRefError>)
        ensures
            match r {
                Ok(p) => parse_spec(value@) == Ok::<_, PullRequestRefError>(p@),
                Err(e) => parse_spec(value@) == Err::<(Seq<char>, Seq<char>, u64), _>(e),
            },
    {
        let n = value.unicode_len();
        if n > 0 && (char_is_whitespace(value.get_char(0)) || char_is_whitespace(
            value.get_char(n - 1),
        )) {
            return Err(PullRequestRefError::InvalidFormat);
        }
        let h = match find_char(value, '#') {
            Some(h) => h,
            None => {
                return Err(PullRequestRefError::InvalidFormat);
            },
        };
        let slug = value.substring_char(0, h);
        let number = value.substring_char(h + 1, n);
        assert(slug@ =~= value@.take(h as int));
        assert(number@ =~= value@.skip(h + 1));
        if contains_char(number, '#') {
            return Err(PullRequestRefError::InvalidFormat);
        }
        let k = match find_char(slug, '/') {
            Some(k) => k,
            None => {
                return Err(PullRequestRefError::InvalidFormat);
            },
        };
        let owner = slug.substring_char(0, k);
        let repository = slug.substring_char(k + 1, h);
        assert(owner@ =~= slug@.take(k as int));
        assert(repository@ =~= slug@.skip(k + 1));
        if contains_char(repository, '/') || !valid_owner(owner) || !valid_repository(repository) {
            return Err(PullRequestRefError::InvalidFormat);
        }
        match parse_u64(number) {
            Some(v) => {
                if v == 0 {
                    Err(PullRequestRefError::InvalidNumber)
                } else {
                    Ok(
                        PullRequestRef {
                            owner: String::from_str(owner),
                            repository: String::from_str(repository),
                            number: v,
                        },
                    )
                }
            },
            None => Err(PullRequestRefError::InvalidNumber),
        }
    }

    /// `https://github.com/OWNER/REPO/pull/NUMBER`.
    pub fn github_url(&self) -> (r: String)
        ensures
            r@ == github_url_spec(self.owner@, self.repository@, self.number),
    {
        let mut out = String::from_str("https://github.com/");
        out.append(self.owner.as_str());
        out.append("/");
        out.append(self.repository.as_str());
        out.append("/pull/");
        push_decimal(&mut out, self.number);
        out
    }

    /// `OWNER/REPO#NUMBER`, the text that `to_string` gives.
    pub fn display(&self) -> (r: String)
        ensures
            r@ == display_spec(self.owner@, self.repository@, self.number),
    {
        let mut out = String::from_str(self.owner.as_str());
        out.append("/");
        out.append(self.repository.as_str());
        out.append("#");
        push_decimal(&mut out, self.number);
        out
    }
}

impl std::str::FromStr for PullRequestRef {
    type Err = PullRequestRefError;

    fn from_str(value: &str) -> (r: Result<PullRequestRef, PullRequestRefError>)
        ensures
            match r {
                Ok(p) => parse_spec(value@) == Ok::<_, PullRequestRefError>(p@),
                Err(e) => parse_spec(value@) == Err::<(Seq<char>, Seq<char>, u64), _>(e),
            },
    {
        PullRequestRef::parse(value)
    }
}

/// Whatever `parse` accepts is a valid reference: its owner and repository
/// are valid names and its number is positive.
pub proof fn lemma_parsed_reference_is_valid(s: Seq<char>)
    ensures
        parse_spec(s) matches Ok((owner, repository, number)) ==> valid_owner_spec(owner)
            && valid_repository_spec(repository) && number > 0,
{
}

/// Reading back what `Display` writes gives the same reference: for a valid
/// owner, a valid repository and a positive number,
/// `parse(display(r)) == Ok(r)`.
pub proof fn lemma_parse_display_roundtrip(owner: Seq<char>, repository: Seq<char>, number: u64)
    requires
        valid_owner_spec(owner),
        valid_repository_spec(repository),
        number > 0,
    ensures
        parse_spec(display_spec(owner, repository, number)) == Ok::<_, PullRequestRefError>(
            (owner, repository, number),
        ),
{
    reveal_strlit("/");
    reveal_strlit("#");
    let d = decimal(number as nat);
    lemma_decimal_roundtrip(number as nat);
    lemma_parse_decimal(number);
    let s = display_spec(owner, repository, number);
    let slug = owner + seq!['/'] + repository;
    assert(s =~= slug + seq!['#'] + d);
    let h = slug.len() as int;
    let ol = owner.len() as int;
    // No whitespace at either end.
    assert(is_owner_char(owner[0]));
    assert(s[0] == owner[0]);
    assert(!is_whitespace(s[0]));
    assert(s[s.len() - 1] == d[d.len() - 1]);
    assert(is_ascii_digit(d[d.len() - 1]));
    assert(!is_whitespace(s[s.len() - 1]));
    // The only `#` comes right after the slug.
    assert(is_first(s, '#', h)) by {
        assert forall|j: int| 0 <= j < h implies s[j] != '#' by {
            if j < ol {
                assert(is_owner_char(owner[j]));
            } else if j > ol {
                assert(is_repository_char(repository[j - ol - 1]));
            }
        }
    }
    lemma_first_index(s, '#', h);
    assert(s.take(h) =~= slug);
    assert(s.skip(h + 1) =~= d);
    assert(!d.contains('#')) by {
        if d.contains('#') {
            let i = choose|i: int| 0 <= i < d.len() && d[i] == '#';
            assert(is_ascii_digit(d[i]));
        }
    }
    // The first `/` ends the owner.
    assert(is_first(slug, '/', ol)) by {
        assert forall|j: int| 0 <= j < ol implies slug[j] != '/' by {
            assert(is_owner_char(owner[j]));
        }
    }
    lemma_first_index(slug, '/', ol);
    assert(slug.take(ol) =~= owner);
    assert(slug.skip(ol + 1) =~= repository);
    assert(!repository.contains('/')) by {
        if repository.contains('/') {
            let i = choose|i: int| 0 <= i < repository.len() && repository[i] == '/';
            assert(is_repository_char(repository[i]));
        }
    }
}

} // verus!

verus! {

/// The owner rule, character by character: an owner is valid exactly when it
/// is non-empty, neither starts nor ends with `-`, and every character is an
/// ASCII digit, an ASCII letter of either case, or `-`.
pub proof fn lemma_owner_name_rule(s: Seq<char>)
    ensures
        valid_owner_spec(s) <==> (s.len() > 0 && s[0] != '-' && s[s.len() - 1] != '-' && forall|
            i: int,
        |
            0 <= i < s.len() ==> (('0' <= #[trigger] s[i] && s[i] <= '9') || ('a' <= s[i] && s[i]
                <= 'z') || ('A' <= s[i] && s[i] <= 'Z') || s[i] == '-')),
{
    let plain = |c: char| ('0' <= c && c <= '9') || ('a' <= c && c <= 'z') || ('A' <= c && c
        <= 'Z') || c == '-';
    if forall|i: int| 0 <= i < s.len() ==> #[trigger] is_owner_char(s[i]) {
        assert forall|i: int| 0 <= i < s.len() implies plain(#[trigger] s[i]) by {
            assert(is_owner_char(s[i]));
        }
    }
    if forall|i: int| 0 <= i < s.len() ==> plain(#[trigger] s[i]) {
        assert forall|i: int| 0 <= i < s.len() implies #[trigger] is_owner_char(s[i]) by {
            assert(plain(s[i]));
        }
    }
}

/// The repository rule, character by character: a repository is valid
/// exactly when it is non-empty and every character is an ASCII digit, an
/// ASCII letter of either case, `-`, `_` or `.`.
pub proof fn lemma_repository_name_rule(s: Seq<char>)
    ensures
        valid_repository_spec(s) <==> (s.len() > 0 && forall|i: int|
            0 <= i < s.len() ==> (('0' <= #[trigger] s[i] && s[i] <= '9') || ('a' <= s[i] && s[i]
                <= 'z') || ('A' <= s[i] && s[i] <= 'Z') || s[i] == '-' || s[i] == '_' || s[i]
                == '.')),
{
    let plain = |c: char| ('0' <= c && c <= '9') || ('a' <= c && c <= 'z') || ('A' <= c && c
        <= 'Z') || c == '-' || c == '_' || c == '.';
    if forall|i: int| 0 <= i < s.len() ==> #[trigger] is_repository_char(s[i]) {
        assert forall|i: int| 0 <= i < s.len() implies plain(#[trigger] s[i]) by {
            assert(is_repository_char(s[i]));
        }
    }
    if forall|i: int| 0 <= i < s.len() ==> plain(#[trigger] s[i]) {
        assert forall|i: int| 0 <= i < s.len() implies #[trigger] is_repository_char(s[i]) by {
            assert(plain(s[i]));
        }
    }
}

/// Every reference written with plain names is accepted as written: for an
/// owner of ASCII letters (either case), digits and inner hyphens, a
/// repository of ASCII letters, digits, `-`, `_` and `.`, and a positive
/// number, `OWNER/REPO#NUMBER` parses to exactly that owner, repository and
/// number.
pub proof fn lemma_parse_accepts_plain_names(owner: Seq<char>, repository: Seq<char>, number: u64)
    requires
        owner.len() > 0,
        owner[0] != '-',
        owner[owner.len() - 1] != '-',
        forall|i: int|
            0 <= i < owner.len() ==> (('0' <= #[trigger] owner[i] && owner[i] <= '9') || ('a'
                <= owner[i] && owner[i] <= 'z') || ('A' <= owner[i] && owner[i] <= 'Z') || owner[i]
                == '-'),
        repository.len() > 0,
        forall|i: int|
            0 <= i < repository.len() ==> (('0' <= #[trigger] repository[i] && repository[i]
                <= '9') || ('a' <= repository[i] && repository[i] <= 'z') || ('A' <= repository[i]
                && repository[i] <= 'Z') || repository[i] == '-' || repository[i] == '_'
                || repository[i] == '.'),
        number > 0,
    ensures
        parse_spec(owner + seq!['/'] + repository + seq!['#'] + decimal(number as nat)) == Ok::<
            _,
            PullRequestRefError,
        >((owner, repository, number)),
{
    lemma_owner_name_rule(owner);
    lemma_repository_name_rule(repository);
    lemma_parse_display_roundtrip(owner, repository, number);
    reveal_strlit("/");
    reveal_strlit("#");
    assert(display_spec(owner, repository, number) =~= owner + seq!['/'] + repository + seq!['#']
        + decimal(number as nat));
}

/// The GitHub URL carries the full number: the text after the last `/pull/`
/// part reads back as the pull request's number, and the URL starts with
/// `https://github.com/OWNER/REPO/pull/`.
pub proof fn lemma_github_url_reads_back(owner: Seq<char>, repository: Seq<char>, number: u64)
    ensures
        ({
            let url = github_url_spec(owner, repository, number);
            let head = "https://github.com/"@ + owner + seq!['/'] + repository + "/pull/"@;
            &&& url.subrange(0, head.len() as int) == head
            &&& parse_u64_spec(url.skip(head.len() as int)) == Some(number)
        }),
{
    reveal_strlit("/");
    lemma_parse_decimal(number);
    let url = github_url_spec(owner, repository, number);
    let head = "https://github.com/"@ + owner + seq!['/'] + repository + "/pull/"@;
    assert(url =~= head + decimal(number as nat));
    assert(url.subrange(0, head.len() as int) =~= head);
    assert(url.skip(head.len() as int) =~= decimal(number as nat));
}

} // verus!
