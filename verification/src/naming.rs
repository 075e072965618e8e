//! Agent and repository naming: kebab-casing, collision-free name
//! generation, and the derived worktree and branch names.

use vstd::prelude::*;
use vstd::string::StringExecFns;
use crate::config::RepoConfig;

verus! {

/// ASCII whitespace, trimmed from the ends of a name.
pub open spec fn is_space_char(c: char) -> bool {
    c == ' ' || c == '\t' || c == '\n' || c == '\r' || c == '\u{000b}' || c == '\u{000c}'
}

/// How kebab-casing rewrites one character: spaces and underscores become
/// hyphens, ASCII capitals become lowercase, everything else is unchanged.
/// The mapping is deliberately ASCII-only: the names the system draws are
/// ASCII, and a character-level mapping whose image is fixed under the
/// mapping keeps kebab-casing provably idempotent, which a Unicode case
/// folding taken on trust would not.
pub open spec fn kebab_char(c: char) -> char {
    if c == ' ' || c == '_' {
        '-'
    } else if 65 <= c as u32 && c as u32 <= 90 {
        (((c as u32) + 32) as u8) as char
    } else {
        c
    }
}

/// The index of the first non-space character at or after `i`, or the
/// length if all remaining characters are spaces.
pub open spec fn first_non_space(s: Seq<char>, i: int) -> int
    decreases s.len() - i,
{
    if i < 0 {
        first_non_space(s, 0)
    } else if i >= s.len() {
        s.len() as int
    } else if is_space_char(s[i]) {
        first_non_space(s, i + 1)
    } else {
        i
    }
}

/// The index one past the last non-space character strictly before `j`,
/// or 0 if all of them are spaces.
pub open spec fn last_non_space_end(s: Seq<char>, j: int) -> int
    decreases j,
{
    if j <= 0 {
        0
    } else if is_space_char(s[j - 1]) {
        last_non_space_end(s, j - 1)
    } else {
        j
    }
}

/// The characters that remain after trimming leading and trailing spaces.
pub open spec fn trim_chars(s: Seq<char>) -> Seq<char> {
    let a = first_non_space(s, 0);
    if a >= s.len() {
        Seq::<char>::empty()
    } else {
        s.subrange(a, last_non_space_end(s, s.len() as int))
    }
}

/// Kebab-casing of a whole name: trim, then rewrite each character.
pub open spec fn kebab_chars(s: Seq<char>) -> Seq<char> {
    trim_chars(s).map_values(|c: char| kebab_char(c))
}

proof fn lemma_first_non_space_props(s: Seq<char>, i: int)
    requires
        0 <= i <= s.len(),
    ensures
        i <= first_non_space(s, i) <= s.len(),
        first_non_space(s, i) < s.len() ==> !is_space_char(s[first_non_space(s, i)]),
        forall|k: int| i <= k < first_non_space(s, i) ==> is_space_char(s[k]),
    decreases s.len() - i,
{
    if i < s.len() && is_space_char(s[i]) {
        lemma_first_non_space_props(s, i + 1);
    }
}

proof fn lemma_last_non_space_props(s: Seq<char>, j: int)
    requires
        0 <= j <= s.len(),
    ensures
        0 <= last_non_space_end(s, j) <= j,
        last_non_space_end(s, j) > 0 ==> !is_space_char(s[last_non_space_end(s, j) - 1]),
        forall|k: int| last_non_space_end(s, j) <= k < j ==> is_space_char(s[k]),
    decreases j,
{
    if j > 0 && is_space_char(s[j - 1]) {
        lemma_last_non_space_props(s, j - 1);
    }
}

proof fn lemma_trim_bounds(s: Seq<char>)
    ensures
        ({
            let a = first_non_space(s, 0);
            let b = last_non_space_end(s, s.len() as int);
            a < s.len() ==> a < b <= s.len()
        }),
{
    let a = first_non_space(s, 0);
    let b = last_non_space_end(s, s.len() as int);
    lemma_first_non_space_props(s, 0);
    lemma_last_non_space_props(s, s.len() as int);
    if a < s.len() {
        // s[a] is not a space, so the scan from the right cannot pass it.
        if b <= a {
            assert(is_space_char(s[a]));
        }
    }
}

/// A trimmed name has no space at either end.
pub proof fn lemma_trim_ends(s: Seq<char>)
    ensures
        trim_chars(s).len() > 0 ==> !is_space_char(trim_chars(s)[0]),
        trim_chars(s).len() > 0 ==> !is_space_char(trim_chars(s)[trim_chars(s).len() - 1]),
{
    lemma_first_non_space_props(s, 0);
    lemma_last_non_space_props(s, s.len() as int);
    lemma_trim_bounds(s);
}

/// Trimming a name whose ends hold no spaces changes nothing.
pub proof fn lemma_trim_noop(s: Seq<char>)
    requires
        s.len() > 0 ==> !is_space_char(s[0]) && !is_space_char(s[s.len() - 1]),
    ensures
        trim_chars(s) == s,
{
    if s.len() == 0 {
        assert(trim_chars(s) =~= s);
    } else {
        assert(first_non_space(s, 0) == 0);
        assert(last_non_space_end(s, s.len() as int) == s.len());
        assert(trim_chars(s) =~= s);
    }
}

/// Kebab-casing is idempotent: applying it twice is the same as once.
pub proof fn lemma_kebab_idempotent(s: Seq<char>)
    ensures
        kebab_chars(kebab_chars(s)) == kebab_chars(s),
{
    let t = trim_chars(s);
    let m = kebab_chars(s);
    lemma_trim_ends(s);
    assert forall|c: char| !is_space_char(c) implies !is_space_char(kebab_char(c)) by {}
    if m.len() > 0 {
        assert(m[0] == kebab_char(t[0]));
        assert(m[m.len() - 1] == kebab_char(t[t.len() - 1]));
    }
    lemma_trim_noop(m);
    assert forall|c: char| #[trigger] kebab_char(kebab_char(c)) == kebab_char(c) by {}
    assert(kebab_chars(m) =~= m) by {
        assert(trim_chars(m) == m);
        assert forall|i: int| 0 <= i < m.len() implies m.map_values(
            |c: char| kebab_char(c),
        )[i] == m[i] by {
            assert(m[i] == kebab_char(t[i]));
        }
    }
}

/// Whether one character is ASCII whitespace.
fn is_space(c: char) -> (r: bool)
    ensures
        r == is_space_char(c),
{
    c == ' ' || c == '\t' || c == '\n' || c == '\r' || c == '\u{000b}' || c == '\u{000c}'
}

/// Rewrite one character as kebab-casing does.
fn kebab_char_exec(c: char) -> (r: char)
    ensures
        r == kebab_char(c),
{
    if c == ' ' || c == '_' {
        '-'
    } else {
        let u: u32 = c as u32;
        if 65 <= u && u <= 90 {
            ((u + 32) as u8) as char
        } else {
            c
        }
    }
}

/// Relies on str::chars: yields exactly the string's characters in order.
#[verifier::external_body]
fn str_chars(s: &str) -> (r: Vec<char>)
    ensures
        r@ == s@,
{
    s.chars().collect()
}

/// Relies on String's FromIterator for char: collecting characters yields
/// the string of exactly those characters.
#[verifier::external_body]
fn string_from_chars(chars: &Vec<char>) -> (r: String)
    ensures
        r@ == chars@,
{
    chars.iter().collect()
}

/// Kebab-case a name: trim ASCII whitespace, lowercase ASCII capitals, and
/// replace spaces and underscores with hyphens.  Non-ASCII characters
/// pass through unchanged, by design (see `kebab_char`).
pub fn to_kebab(value: &str) -> (r: String)
    ensures
        r@ == kebab_chars(value@),
{
    let chars = str_chars(value);
    let ghost s = chars@;
    let n: usize = chars.len();
    let mut a: usize = 0;
    while a < n && is_space(chars[a])
        invariant
            a <= n,
            n == s.len(),
            chars@ == s,
            forall|k: int| 0 <= k < a ==> is_space_char(s[k]),
        decreases n - a,
    {
        a = a + 1;
    }
    proof {
        lemma_first_non_space_eq(s, a as int);
    }
    if a == n {
        let out: Vec<char> = Vec::new();
        let r = string_from_chars(&out);
        proof {
            assert(trim_chars(s) =~= Seq::<char>::empty());
            assert(kebab_chars(s) =~= Seq::<char>::empty());
        }
        return r;
    }
    let mut b: usize = n;
    while b > a && is_space(chars[b - 1])
        invariant
            a <= b <= n,
            n == s.len(),
            chars@ == s,
            forall|k: int| b <= k < n ==> is_space_char(s[k]),
        decreases b,
    {
        b = b - 1;
    }
    proof {
        assert(!is_space_char(s[a as int]));
        assert(b > a);
        lemma_last_non_space_eq(s, b as int);
    }
    let mut out: Vec<char> = Vec::new();
    let mut i: usize = a;
    while i < b
        invariant
            a <= i <= b <= n,
            n == s.len(),
            chars@ == s,
            out@ == s.subrange(a as int, i as int).map_values(|c: char| kebab_char(c)),
        decreases b - i,
    {
        out.push(kebab_char_exec(chars[i]));
        i = i + 1;
        proof {
            assert(out@ =~= s.subrange(a as int, i as int).map_values(|c: char| kebab_char(c)));
        }
    }
    let r = string_from_chars(&out);
    proof {
        assert(trim_chars(s) == s.subrange(a as int, b as int));
        assert(r@ =~= kebab_chars(s));
    }
    r
}

proof fn lemma_first_non_space_eq(s: Seq<char>, a: int)
    requires
        0 <= a <= s.len(),
        forall|k: int| 0 <= k < a ==> is_space_char(s[k]),
        a < s.len() ==> !is_space_char(s[a]),
    ensures
        first_non_space(s, 0) == a,
{
    lemma_first_non_space_from(s, 0, a);
}

proof fn lemma_first_non_space_from(s: Seq<char>, i: int, a: int)
    requires
        0 <= i <= a <= s.len(),
        forall|k: int| i <= k < a ==> is_space_char(s[k]),
        a < s.len() ==> !is_space_char(s[a]),
    ensures
        first_non_space(s, i) == a,
    decreases a - i,
{
    if i < a {
        lemma_first_non_space_from(s, i + 1, a);
    }
}

proof fn lemma_last_non_space_eq(s: Seq<char>, b: int)
    requires
        0 <= b <= s.len(),
        forall|k: int| b <= k < s.len() ==> is_space_char(s[k]),
        b > 0 ==> !is_space_char(s[b - 1]),
    ensures
        last_non_space_end(s, s.len() as int) == b,
{
    lemma_last_non_space_from(s, s.len() as int, b);
}

proof fn lemma_last_non_space_from(s: Seq<char>, j: int, b: int)
    requires
        0 <= b <= j <= s.len(),
        forall|k: int| b <= k < j ==> is_space_char(s[k]),
        b > 0 ==> !is_space_char(s[b - 1]),
    ensures
        last_non_space_end(s, j) == b,
    decreases j - b,
{
    if b < j {
        lemma_last_non_space_from(s, j - 1, b);
    }
}

/// The names of the registered repositories.
pub open spec fn repo_names(repos: Seq<RepoConfig>) -> Seq<Seq<char>> {
    repos.map_values(|r: RepoConfig| r.name@)
}

/// Whether a candidate name is already among the existing names.
pub open spec fn name_taken(names: Seq<Seq<char>>, candidate: Seq<char>) -> bool {
    exists|i: int| 0 <= i < names.len() && names[i] == candidate
}

/// A base name with a hyphenated suffix.
pub open spec fn suffixed(base: Seq<char>, suffix: Seq<char>) -> Seq<char> {
    base + seq!['-'] + suffix
}

/// The first suffixed candidate not yet taken, trying suffixes in order.
pub open spec fn first_free_suffixed(
    base: Seq<char>,
    names: Seq<Seq<char>>,
    suffixes: Seq<Seq<char>>,
) -> Option<Seq<char>>
    decreases suffixes.len(),
{
    if suffixes.len() == 0 {
        None
    } else if !name_taken(names, suffixed(base, suffixes[0])) {
        Some(suffixed(base, suffixes[0]))
    } else {
        first_free_suffixed(base, names, suffixes.drop_first())
    }
}

/// The name chosen for a base and a stream of suffixes: the base itself
/// when it is free, else the first free suffixed candidate.
pub open spec fn spec_generate_name(
    base: Seq<char>,
    names: Seq<Seq<char>>,
    suffixes: Seq<Seq<char>>,
) -> Option<Seq<char>> {
    if !name_taken(names, base) {
        Some(base)
    } else {
        first_free_suffixed(base, names, suffixes)
    }
}

/// Whether `candidate` is the name of one of the repositories.
fn contains_repo_name(repos: &Vec<RepoConfig>, candidate: &String) -> (r: bool)
    ensures
        r == name_taken(repo_names(repos@), candidate@),
{
    let n: usize = repos.len();
    let mut i: usize = 0;
    while i < n
        invariant
            i <= n,
            n == repos@.len(),
            forall|k: int| 0 <= k < i ==> repos@[k].name@ != candidate@,
        decreases n - i,
    {
        if repos[i].name == *candidate {
            proof {
                assert(repo_names(repos@)[i as int] == candidate@);
            }
            return true;
        }
        i = i + 1;
    }
    proof {
        assert forall|k: int| 0 <= k < repos@.len() implies repo_names(repos@)[k]
            != candidate@ by {
            assert(repos@[k].name@ != candidate@);
        }
    }
    false
}

/// Whether `candidate` is among the existing names.
pub fn contains_string(names: &Vec<String>, candidate: &String) -> (r: bool)
    ensures
        r == name_taken(names@.map_values(|s: String| s@), candidate@),
{
    let n: usize = names.len();
    let mut i: usize = 0;
    while i < n
        invariant
            i <= n,
            n == names@.len(),
            forall|k: int| 0 <= k < i ==> names@[k]@ != candidate@,
        decreases n - i,
    {
        if names[i] == *candidate {
            proof {
                assert(names@.map_values(|s: String| s@)[i as int] == candidate@);
            }
            return true;
        }
        i = i + 1;
    }
    proof {
        assert forall|k: int| #![trigger names@[k]] 0 <= k < names@.len() implies names@.map_values(
            |s: String| s@,
        )[k] != candidate@ by {
            assert(names@[k]@ != candidate@);
        }
    }
    false
}

/// Join a base name and a suffix with a hyphen.
fn join_suffix(base: &str, suffix: &String) -> (r: String)
    ensures
        r@ == suffixed(base@, suffix@),
{
    let mut out = base.to_owned();
    out.append("-");
    out.append(suffix.as_str());
    proof {
        reveal_strlit("-");
        assert(("-")@ =~= seq!['-']);
    }
    out
}

/// Choose a repository name from a base and a stream of suffixes: the base
/// itself when no existing repository uses it, else `base-suffix` for the
/// first suffix that frees the collision; `None` when every given suffix
/// collides too.
pub fn generate_repo_name_with_suffix(
    base_name: &str,
    repos: &Vec<RepoConfig>,
    suffixes: &Vec<String>,
) -> (r: Option<String>)
    ensures
        (match r {
            Some(name) => Some(name@),
            None => None,
        }) == spec_generate_name(base_name@, repo_names(repos@), suffixes@.map_values(
            |s: String| s@,
        )),
{
    let base = base_name.to_owned();
    if !contains_repo_name(repos, &base) {
        return Some(base);
    }
    let n: usize = suffixes.len();
    let ghost names = repo_names(repos@);
    let ghost sufs = suffixes@.map_values(|s: String| s@);
    let mut i: usize = 0;
    proof {
        assert(sufs.skip(0) =~= sufs);
    }
    while i < n
        invariant
            i <= n,
            n == suffixes@.len(),
            sufs == suffixes@.map_values(|s: String| s@),
            names == repo_names(repos@),
            name_taken(names, base_name@),
            first_free_suffixed(base_name@, names, sufs) == first_free_suffixed(base_name@, names,
                sufs.skip(i as int)),
        decreases n - i,
    {
        let candidate = join_suffix(base_name, &suffixes[i]);
        let taken = contains_repo_name(repos, &candidate);
        proof {
            assert(sufs.skip(i as int)[0] == sufs[i as int]);
            assert(sufs[i as int] == suffixes@[i as int]@);
            assert(suffixed(base_name@, sufs.skip(i as int)[0]) == candidate@);
        }
        if !taken {
            proof {
                assert(first_free_suffixed(base_name@, names, sufs.skip(i as int)) == Some(
                    candidate@,
                ));
            }
            return Some(candidate);
        }
        proof {
            assert(sufs.skip(i as int).drop_first() =~= sufs.skip(i as int + 1));
        }
        i = i + 1;
    }
    proof {
        assert(sufs.skip(n as int) =~= Seq::<Seq<char>>::empty());
    }
    None
}

/// Relies on petname::petname: draws a short random word pair.  The result
/// depends on the process's random number generator, so nothing is
/// promised of it.
#[verifier::external_body]
fn random_petname() -> (r: Option<String>) {
    petname::petname(2, "-")
}

/// How many random draws the name generators attempt before giving up.
/// Collisions are vanishingly rare, so the bound is never reached in
/// practice.
pub const NAME_DRAW_ATTEMPTS: usize = 4096;

/// Choose a repository name, drawing random suffixes until one is free:
/// the base itself when no existing repository uses it, else a fresh
/// `base-suffix`; `None` only when the word lists are unavailable or
/// every drawn suffix collided.
pub fn generate_repo_name(base_name: &str, repos: &Vec<RepoConfig>) -> (r: Option<String>)
    ensures
        r matches Some(name) ==> !name_taken(repo_names(repos@), name@),
        !name_taken(repo_names(repos@), base_name@) ==> (match r {
            Some(name) => name@ == base_name@,
            None => false,
        }),
{
    let base = base_name.to_owned();
    if !contains_repo_name(repos, &base) {
        return Some(base);
    }
    let mut attempts: usize = 0;
    while attempts < NAME_DRAW_ATTEMPTS
        invariant
            name_taken(repo_names(repos@), base_name@),
        decreases NAME_DRAW_ATTEMPTS - attempts,
    {
        match random_petname() {
            None => {
                return None;
            },
            Some(suffix) => {
                let candidate = join_suffix(base_name, &suffix);
                if !contains_repo_name(repos, &candidate) {
                    return Some(candidate);
                }
            },
        }
        attempts = attempts + 1;
    }
    None
}

/// Choose a fresh agent name, drawing random word pairs until one is not
/// among the existing names; `None` only when the word lists are
/// unavailable or every drawn name collided.
pub fn generate_unique_agent_name(existing: &Vec<String>) -> (r: Option<String>)
    ensures
        r matches Some(name) ==> !name_taken(existing@.map_values(|s: String| s@), name@),
{
    let mut attempts: usize = 0;
    while attempts < NAME_DRAW_ATTEMPTS
        decreases NAME_DRAW_ATTEMPTS - attempts,
    {
        match random_petname() {
            None => {
                return None;
            },
            Some(candidate) => {
                if !contains_string(existing, &candidate) {
                    return Some(candidate);
                }
            },
        }
        attempts = attempts + 1;
    }
    None
}

/// The directory name of an agent's worktree: the repository name and the
/// kebab-cased agent name, joined with a hyphen.
pub fn worktree_dir_name(repo_name: &str, agent_name: &str) -> (r: String)
    ensures
        r@ == repo_name@ + seq!['-'] + kebab_chars(agent_name@),
{
    let kebab = to_kebab(agent_name);
    let mut out = repo_name.to_owned();
    out.append("-");
    out.append(kebab.as_str());
    proof {
        reveal_strlit("-");
        assert(("-")@ =~= seq!['-']);
    }
    out
}

/// The branch created for an agent's worktree: `agent/` followed by the
/// kebab-cased agent name.
pub fn branch_name(agent_name: &str) -> (r: String)
    ensures
        r@ == "agent/"@ + kebab_chars(agent_name@),
{
    let kebab = to_kebab(agent_name);
    let mut out = "agent/".to_owned();
    out.append(kebab.as_str());
    out
}

} // verus!
