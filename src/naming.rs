use vstd::prelude::*;
use vstd::string::*;

verus! {

/// An ASCII decimal digit.
pub open spec fn is_digit(c: char) -> bool {
    '0' <= c && c <= '9'
}

/// `s` has the shape `X (Y)`, with `X` and `Y` non-empty: the canonical
/// `Artist - Title (Author)` name of an export.
pub open spec fn is_canonical(s: Seq<char>) -> bool {
    s.len() >= 1 && s[s.len() - 1] == ')' && exists|i: int| is_open_at(s, i)
}

/// `s` holds ` (` at index `i`, with a non-empty text before it and a
/// non-empty text between it and the closing `)` at the end.
pub open spec fn is_open_at(s: Seq<char>, i: int) -> bool {
    1 <= i && i + 4 <= s.len() && s[i] == ' ' && s[i + 1] == '('
}

/// `s` ends in a duplicate-export number ` (N)` that starts at index `k`.
pub open spec fn dup_suffix_at(s: Seq<char>, k: int) -> bool {
    &&& 0 <= k && k + 4 <= s.len()
    &&& s[k] == ' ' && s[k + 1] == '('
    &&& s[s.len() - 1] == ')'
    &&& forall|j: int| k + 2 <= j < s.len() - 1 ==> is_digit(#[trigger] s[j])
}

/// `s` is a canonical name followed by a duplicate-export number at `k`.
pub open spec fn dedup_at(s: Seq<char>, k: int) -> bool {
    dup_suffix_at(s, k) && is_canonical(s.subrange(0, k))
}

/// The file name carries the archive extension `.osz` after a non-empty stem.
pub open spec fn is_archive_name(f: Seq<char>) -> bool {
    f.len() > 4 && f[f.len() - 4] == '.' && f[f.len() - 3] == 'o' && f[f.len() - 2] == 's'
        && f[f.len() - 1] == 'z'
}

/// `i` is the last `.` of `f`, and not its first character.
pub open spec fn is_last_dot(f: Seq<char>, i: int) -> bool {
    0 < i < f.len() && f[i] == '.' && forall|j: int| i < j < f.len() ==> #[trigger] f[j] != '.'
}

/// The file name without its extension.
pub open spec fn file_stem(f: Seq<char>) -> Seq<char> {
    if exists|i: int| is_last_dot(f, i) {
        f.subrange(0, choose|i: int| is_last_dot(f, i))
    } else {
        f
    }
}

/// The project identifier that an archive's file name stands for: repeated
/// exports `X (Y) (N).osz` collapse onto `X (Y)`; any other name gives its stem.
pub open spec fn identifier_of(f: Seq<char>) -> Seq<char> {
    let stem = file_stem(f);
    if is_archive_name(f) && exists|k: int| dedup_at(stem, k) {
        stem.subrange(0, choose|k: int| dedup_at(stem, k))
    } else {
        stem
    }
}

pub proof fn lemma_last_dot_unique(f: Seq<char>, i: int, j: int)
    requires
        is_last_dot(f, i),
        is_last_dot(f, j),
    ensures
        i == j,
{
    if i < j {
        assert(f[j] != '.');
    } else if j < i {
        assert(f[i] != '.');
    }
}

pub proof fn lemma_dup_suffix_unique(s: Seq<char>, k1: int, k2: int)
    requires
        dup_suffix_at(s, k1),
        dup_suffix_at(s, k2),
    ensures
        k1 == k2,
{
    if k1 + 2 <= k2 {
        assert(is_digit(s[k2]));
    } else if k2 + 2 <= k1 {
        assert(is_digit(s[k1]));
    }
}

fn last_dot(f: &str) -> (r: Option<usize>)
    ensures
        match r {
            Some(i) => is_last_dot(f@, i as int),
            None => !exists|i: int| is_last_dot(f@, i),
        },
{
    let n = f.unicode_len();
    let mut i: usize = n;
    while i > 1
        invariant
            n == f@.len(),
            0 <= i <= n || (n == 0 && i == 0),
            i <= n,
            forall|j: int| i <= j < n ==> f@[j] != '.',
        decreases i,
    {
        i = i - 1;
        if f.get_char(i) == '.' {
            return Some(i);
        }
    }
    proof {
        assert forall|k: int| !is_last_dot(f@, k) by {
            if is_last_dot(f@, k) {
                assert(f@[k] == '.');
            }
        }
    }
    None
}

/// The file name `f` without its extension (what follows its last `.`).
pub fn file_stem_of(f: &str) -> (r: String)
    ensures
        r@ == file_stem(f@),
{
    match last_dot(f) {
        Some(i) => {
            proof {
                assert forall|j: int| is_last_dot(f@, j) implies j == i by {
                    lemma_last_dot_unique(f@, i as int, j);
                }
            }
            f.substring_char(0, i).to_string()
        },
        None => f.to_string(),
    }
}

fn dup_suffix_start(s: &str) -> (r: Option<usize>)
    ensures
        match r {
            Some(k) => dup_suffix_at(s@, k as int),
            None => !exists|k: int| dup_suffix_at(s@, k),
        },
{
    let n = s.unicode_len();
    if n < 4 || s.get_char(n - 1) != ')' {
        return None;
    }
    // walk back over the digits before the closing parenthesis
    let mut j: usize = n - 1;
    while j > 0 && is_digit_char(s.get_char(j - 1))
        invariant
            n == s@.len(),
            n >= 4,
            j <= n - 1,
            forall|t: int| j <= t < n - 1 ==> is_digit(#[trigger] s@[t]),
        decreases j,
    {
        j = j - 1;
    }
    if j + 1 < n && j >= 2 && s.get_char(j - 1) == '(' && s.get_char(j - 2) == ' ' {
        Some(j - 2)
    } else {
        proof {
            assert forall|k: int| !dup_suffix_at(s@, k) by {
                if dup_suffix_at(s@, k) {
                    if k + 2 < j {
                        assert(is_digit(s@[j - 1]));
                    } else if k + 2 > j {
                        assert(is_digit(s@[k + 1]));
                    }
                }
            }
        }
        None
    }
}

fn is_digit_char(c: char) -> (r: bool)
    ensures
        r == is_digit(c),
{
    '0' <= c && c <= '9'
}

/// Whether the first `end` characters of `s` form a canonical `X (Y)` name.
fn is_canonical_prefix(s: &str, end: usize) -> (r: bool)
    requires
        end <= s@.len(),
    ensures
        r == is_canonical(s@.subrange(0, end as int)),
{
    let ghost p = s@.subrange(0, end as int);
    if end < 1 || s.get_char(end - 1) != ')' {
        return false;
    }
    let mut i: usize = 1;
    while end >= 4 && i <= end - 4
        invariant
            p == s@.subrange(0, end as int),
            end <= s@.len(),
            end >= 1,
            s@[end - 1] == ')',
            1 <= i,
            forall|t: int| 1 <= t < i ==> !is_open_at(p, t),
        decreases end - i,
    {
        if s.get_char(i) == ' ' && s.get_char(i + 1) == '(' {
            assert(p[end - 1] == ')');
            assert(is_open_at(p, i as int));
            return true;
        }
        i = i + 1;
    }
    proof {
        assert forall|t: int| !is_open_at(p, t) by {
            if is_open_at(p, t) {
                assert(t < i);
            }
        }
    }
    false
}

/// Whether `f` names an archive: a non-empty stem and the extension `.osz`.
pub fn is_archive_file_name(f: &str) -> (r: bool)
    ensures
        r == is_archive_name(f@),
{
    let n = f.unicode_len();
    n > 4 && f.get_char(n - 4) == '.' && f.get_char(n - 3) == 'o' && f.get_char(n - 2) == 's'
        && f.get_char(n - 1) == 'z'
}

/// The project identifier for an archive's file name: a repeated export
/// `X (Y) (N).osz` resolves to `X (Y)`, anything else to its stem.
pub fn project_identifier(file_name: &str) -> (r: String)
    ensures
        r@ == identifier_of(file_name@),
{
    let stem = file_stem_of(file_name);
    if !is_archive_file_name(file_name) {
        return stem;
    }
    let s = stem.as_str();
    match dup_suffix_start(s) {
        Some(k) => {
            if is_canonical_prefix(s, k) {
                proof {
                    assert(dedup_at(stem@, k as int));
                    assert forall|k2: int| dedup_at(stem@, k2) implies k2 == k by {
                        lemma_dup_suffix_unique(stem@, k as int, k2);
                    }
                }
                s.substring_char(0, k).to_string()
            } else {
                proof {
                    assert forall|k2: int| !dedup_at(stem@, k2) by {
                        if dedup_at(stem@, k2) {
                            lemma_dup_suffix_unique(stem@, k as int, k2);
                        }
                    }
                }
                stem
            }
        },
        None => stem,
    }
}

/// Resolves the project an import goes to: `override_name` verbatim when
/// given, else the identifier derived from the archive's file name.
pub fn resolve_project_name(file_name: &str, override_name: Option<String>) -> (r: String)
    ensures
        match override_name {
            Some(n) => r@ == n@,
            None => r@ == identifier_of(file_name@),
        },
{
    match override_name {
        Some(n) => n,
        None => project_identifier(file_name),
    }
}

/// The canonical name `x (y)`.
pub open spec fn canonical_name(x: Seq<char>, y: Seq<char>) -> Seq<char> {
    x + seq![' ', '('] + y + seq![')']
}

/// Repeated exports collapse onto one project: the first export `X (Y).osz`
/// and a repeated export `X (Y) (N).osz` both resolve to `X (Y)`, unless
/// `X (Y)` itself already reads as a repeated export.
pub proof fn lemma_repeated_exports_share_identifier(x: Seq<char>, y: Seq<char>, n: Seq<char>)
    requires
        x.len() > 0,
        y.len() > 0,
        n.len() > 0,
        forall|j: int| 0 <= j < n.len() ==> is_digit(#[trigger] n[j]),
        !exists|k: int| dedup_at(canonical_name(x, y), k),
    ensures
        identifier_of(canonical_name(x, y) + seq!['.', 'o', 's', 'z']) == canonical_name(x, y),
        identifier_of(canonical_name(x, y) + seq![' ', '('] + n + seq![')'] + seq!['.', 'o', 's', 'z'])
            == canonical_name(x, y),
{
    let c = canonical_name(x, y);
    let ext = seq!['.', 'o', 's', 'z'];
    let f1 = c + ext;
    let stem2 = c + seq![' ', '('] + n + seq![')'];
    let f2 = stem2 + ext;
    assert(is_last_dot(f1, c.len() as int));
    assert forall|i: int| is_last_dot(f1, i) implies i == c.len() by {
        lemma_last_dot_unique(f1, c.len() as int, i);
    }
    assert(f1.subrange(0, c.len() as int) =~= c);
    assert(file_stem(f1) == c);
    assert(is_last_dot(f2, stem2.len() as int));
    assert forall|i: int| is_last_dot(f2, i) implies i == stem2.len() by {
        lemma_last_dot_unique(f2, stem2.len() as int, i);
    }
    assert(f2.subrange(0, stem2.len() as int) =~= stem2);
    assert(file_stem(f2) == stem2);
    let k = c.len() as int;
    assert(stem2.subrange(0, k) =~= c);
    assert(is_open_at(c, x.len() as int));
    assert(is_canonical(c));
    assert forall|j: int| k + 2 <= j < stem2.len() - 1 implies is_digit(#[trigger] stem2[j]) by {
        assert(stem2[j] == n[j - k - 2]);
    }
    assert(dup_suffix_at(stem2, k));
    assert(dedup_at(stem2, k));
    assert forall|k2: int| dedup_at(stem2, k2) implies k2 == k by {
        lemma_dup_suffix_unique(stem2, k, k2);
    }
}

} // verus!
