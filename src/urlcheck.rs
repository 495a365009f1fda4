//! Which url texts the url parser can take without failing hard.

use vstd::prelude::*;

verus! {

/// `://` stands at position `i`.
pub open spec fn separator_at(u: Seq<char>, i: int) -> bool {
    0 <= i && i + 3 <= u.len() && u[i] == ':' && u[i + 1] == '/' && u[i + 2] == '/'
}

/// `ssh` stands at position `i`.
pub open spec fn ssh_at(u: Seq<char>, i: int) -> bool {
    0 <= i && i + 3 <= u.len() && u[i] == 's' && u[i + 1] == 's' && u[i + 2] == 'h'
}

/// The first `://` of `u` stands at `k`.
pub open spec fn first_separator(u: Seq<char>, k: int) -> bool {
    separator_at(u, k) && forall|j: int| 0 <= j < k ==> !separator_at(u, j)
}

/// The text before the first `://` holds `ssh`: the url parser may then take
/// the url for an ssh url and cut the first character off its path.
pub open spec fn ssh_scheme(u: Seq<char>) -> bool {
    exists|k: int| #[trigger]
        first_separator(u, k) && exists|i: int| 0 <= i && i + 3 <= k && #[trigger] ssh_at(u, i)
}

/// An ASCII letter or digit.
pub open spec fn ascii_alnum(c: char) -> bool {
    ('a' <= c && c <= 'z') || ('A' <= c && c <= 'Z') || ('0' <= c && c <= '9')
}

/// A character that the url parser reads as part of a host or a port (on
/// ASCII text: letters, digits, `-._~` and the sub-delimiters, `\` included).
pub open spec fn reg_char(c: char) -> bool {
    ascii_alnum(c) || c == '-' || c == '.' || c == '_' || c == '~' || c == '!' || c == '$' || c
        == '&' || c == '\'' || c == '(' || c == ')' || c == '*' || c == '+' || c == ',' || c == ';'
        || c == '=' || c == '\\'
}

/// A character that the url parser reads as part of user information.
pub open spec fn user_char(c: char) -> bool {
    reg_char(c) || c == ':'
}

/// Where the run of user-information characters (`user`) or of host
/// characters (`!user`) that starts at `i` ends.
pub open spec fn run_end(u: Seq<char>, i: int, user: bool) -> int
    decreases u.len() - i,
{
    if 0 <= i < u.len() && (if user {
        user_char(u[i])
    } else {
        reg_char(u[i])
    }) {
        run_end(u, i + 1, user)
    } else {
        i
    }
}

/// The url parser reads the authority of an ssh url that starts at `a`
/// and finds a path after it that is non-empty. On ASCII text without `\`,
/// this follows the parser step by step:
/// - user information is the run of user characters, when `@` follows it;
///   if it holds a `:`, the text before its first `:` and the character
///   after it must be host characters;
/// - the host is the run of host characters that follows, when it starts
///   with a letter or digit;
/// - the path must then start with a host character, `/`, `@` or `:`;
///   after a `:` the run of port characters must be followed by `:`, `@`
///   or `/` (this leaves out some texts that the parser reads as a path
///   starting with `:`, such as a port that is no number and nothing after
///   it).
pub open spec fn authority_ok(u: Seq<char>, a: int) -> bool {
    let e1 = run_end(u, a, true);
    let has_user = e1 > a && e1 < u.len() && u[e1] == '@';
    let c = run_end(u, a, false);
    let user_ok = !has_user || c == e1 || (c > a && c + 1 < e1 && u[c + 1] != ':');
    let b = if has_user {
        e1 + 1
    } else {
        a
    };
    let h = run_end(u, b, false);
    let s2 = if h > b && ascii_alnum(u[b]) {
        h
    } else {
        b
    };
    let j = run_end(u, s2 + 1, false);
    &&& user_ok
    &&& s2 < u.len()
    &&& (reg_char(u[s2]) || u[s2] == '/' || u[s2] == '@' || (u[s2] == ':' && j < u.len() && (u[j]
        == ':' || u[j] == '@' || u[j] == '/')))
}

/// A text that the url parser takes without panicking. The parser cuts the
/// first character off the path of a url whose scheme holds `ssh`, and
/// panics where that path is empty (when it cannot read the authority or
/// finds no path after it) or starts with a multi-byte character. So a text
/// whose scheme (the text before the first `://`) holds `ssh` must be ASCII
/// without `\` and have an authority that `authority_ok` accepts.
pub open spec fn parser_safe(u: Seq<char>) -> bool {
    !ssh_scheme(u) || ((forall|i: int|
        0 <= i < u.len() ==> (#[trigger] u[i] as int) < 128 && u[i] != '\\') && forall|k: int|
        #[trigger] first_separator(u, k) ==> authority_ok(u, k + 3))
}

/// Whether `c` is a host character.
fn is_reg_char(c: char) -> (r: bool)
    ensures
        r == reg_char(c),
{
    ('a' <= c && c <= 'z') || ('A' <= c && c <= 'Z') || ('0' <= c && c <= '9') || c == '-' || c
        == '.' || c == '_' || c == '~' || c == '!' || c == '$' || c == '&' || c == '\'' || c == '('
        || c == ')' || c == '*' || c == '+' || c == ',' || c == ';' || c == '=' || c == '\\'
}

/// Where the run that starts at `i` ends, as `run_end` states.
fn run_end_at(u: &str, n: usize, i: usize, user: bool) -> (r: usize)
    requires
        n == u@.len(),
        i <= n,
    ensures
        r == run_end(u@, i as int, user),
        i <= r <= n,
{
    let mut j = i;
    while j < n
        invariant_except_break
            n == u@.len(),
            i <= j <= n,
            run_end(u@, i as int, user) == run_end(u@, j as int, user),
        ensures
            i <= j <= n,
            run_end(u@, i as int, user) == j,
        decreases n - j,
    {
        let c = u.get_char(j);
        let more = if user {
            is_reg_char(c) || c == ':'
        } else {
            is_reg_char(c)
        };
        if !more {
            break;
        }
        j = j + 1;
    }
    j
}

/// Whether `authority_ok` holds at `a`.
fn is_authority_ok(u: &str, n: usize, a: usize) -> (r: bool)
    requires
        n == u@.len(),
        a <= n,
    ensures
        r == authority_ok(u@, a as int),
{
    let e1 = run_end_at(u, n, a, true);
    let has_user = e1 > a && e1 < n && u.get_char(e1) == '@';
    let c = run_end_at(u, n, a, false);
    let user_ok = !has_user || c == e1 || (c > a && c < e1 && e1 - c > 1 && u.get_char(c + 1)
        != ':');
    let b = if has_user {
        e1 + 1
    } else {
        a
    };
    let h = run_end_at(u, n, b, false);
    let s2 = if h > b && b < n && {
        let x = u.get_char(b);
        ('a' <= x && x <= 'z') || ('A' <= x && x <= 'Z') || ('0' <= x && x <= '9')
    } {
        h
    } else {
        b
    };
    if !user_ok || s2 >= n {
        return false;
    }
    let x = u.get_char(s2);
    if is_reg_char(x) || x == '/' || x == '@' {
        return true;
    }
    if x != ':' {
        return false;
    }
    let j = run_end_at(u, n, s2 + 1, false);
    j < n && {
        let y = u.get_char(j);
        y == ':' || y == '@' || y == '/'
    }
}

/// Whether the url parser can take `u`, as `parser_safe` states.
pub fn is_parser_safe(u: &str) -> (r: bool)
    ensures
        r == parser_safe(u@),
{
    let n = u.unicode_len();
    if n < 3 {
        assert(!ssh_scheme(u@)) by {
            if ssh_scheme(u@) {
                let k = choose|k: int| #[trigger]
                    first_separator(u@, k) && exists|i: int|
                        0 <= i && i + 3 <= k && #[trigger] ssh_at(u@, i);
            }
        }
        return true;
    }
    // The first `://`.
    let mut k: usize = 0;
    let mut found = false;
    while n - k >= 3
        invariant_except_break
            n == u@.len(),
            n >= 3,
            k <= n,
            !found,
            forall|j: int| 0 <= j < k ==> !separator_at(u@, j),
        ensures
            n == u@.len(),
            found ==> first_separator(u@, k as int),
            !found ==> forall|j: int| 0 <= j ==> !separator_at(u@, j),
        decreases n - k,
    {
        if u.get_char(k) == ':' && u.get_char(k + 1) == '/' && u.get_char(k + 2) == '/' {
            found = true;
            break;
        }
        k = k + 1;
    }
    if !found {
        assert(!ssh_scheme(u@));
        return true;
    }
    // `ssh` before it.
    let mut i: usize = 0;
    let mut ssh = false;
    while i <= k && k - i >= 3
        invariant_except_break
            n == u@.len(),
            i <= k,
            !ssh,
            first_separator(u@, k as int),
            forall|j: int| 0 <= j < i ==> !ssh_at(u@, j),
        ensures
            ssh == exists|j: int| 0 <= j && j + 3 <= k && #[trigger] ssh_at(u@, j),
            first_separator(u@, k as int),
        decreases k - i,
    {
        if u.get_char(i) == 's' && u.get_char(i + 1) == 's' && u.get_char(i + 2) == 'h' {
            assert(ssh_at(u@, i as int));
            ssh = true;
            break;
        }
        i = i + 1;
    }
    proof {
        if ssh_scheme(u@) {
            let k2 = choose|k2: int| #[trigger]
                first_separator(u@, k2) && exists|i: int|
                    0 <= i && i + 3 <= k2 && #[trigger] ssh_at(u@, i);
            assert(k2 == k as int) by {
                if k2 < k as int {
                    assert(!separator_at(u@, k2));
                } else if k2 > k as int {
                    assert(!separator_at(u@, k as int));
                }
            }
        }
        if ssh {
            assert(first_separator(u@, k as int));
            assert(ssh_scheme(u@));
        }
    }
    if !ssh {
        return true;
    }
    // ASCII without `\`, and an authority the parser reads.
    let mut m: usize = 0;
    while m < n
        invariant
            n == u@.len(),
            m <= n,
            k + 3 <= n,
            ssh_scheme(u@),
            first_separator(u@, k as int),
            forall|j: int| 0 <= j < m ==> (#[trigger] u@[j] as int) < 128 && u@[j] != '\\',
        decreases n - m,
    {
        let c = u.get_char(m);
        if (c as u32) >= 128 || c == '\\' {
            assert(ssh_scheme(u@));
            return false;
        }
        m = m + 1;
    }
    let ok = is_authority_ok(u, n, k + 3);
    proof {
        assert forall|k2: int| #[trigger] first_separator(u@, k2) implies k2 == k as int by {
            if k2 < k as int {
                assert(!separator_at(u@, k2));
            } else if k2 > k as int {
                assert(!separator_at(u@, k as int));
            }
        }
        assert(first_separator(u@, k as int));
    }
    ok
}

} // verus!
