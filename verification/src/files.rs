//! What is read from each file: its line count, whether it looks binary, and
//! its language key.

use vstd::prelude::*;
use vstd::string::*;

verus! {

// ---------------------------------------------------------------------------
// Line counting

/// Number of line feeds in `s`.
pub open spec fn newlines(s: Seq<u8>) -> nat
    decreases s.len(),
{
    if s.len() == 0 {
        0
    } else {
        newlines(s.drop_last()) + if s.last() == 10u8 {
            1nat
        } else {
            0nat
        }
    }
}

/// Lines of a text: every line feed ends a line, and a last line without a
/// line feed counts too.
pub open spec fn line_count(s: Seq<u8>) -> nat {
    if s.len() == 0 {
        0
    } else if s.last() == 10u8 {
        newlines(s)
    } else {
        newlines(s) + 1
    }
}

pub proof fn lemma_newlines_le(s: Seq<u8>)
    ensures
        newlines(s) <= s.len(),
        s.len() > 0 && s.last() != 10u8 ==> newlines(s) < s.len(),
    decreases s.len(),
{
    if s.len() > 0 {
        lemma_newlines_le(s.drop_last());
    }
}

pub proof fn lemma_newlines_concat(a: Seq<u8>, b: Seq<u8>)
    ensures
        newlines(a + b) == newlines(a) + newlines(b),
    decreases b.len(),
{
    if b.len() == 0 {
        assert(a + b =~= a);
    } else {
        lemma_newlines_concat(a, b.drop_last());
        assert((a + b).drop_last() =~= a + b.drop_last());
    }
}

pub proof fn lemma_newlines_none(s: Seq<u8>)
    requires
        forall|i: int| 0 <= i < s.len() ==> s[i] != 10u8,
    ensures
        newlines(s) == 0,
    decreases s.len(),
{
    if s.len() > 0 {
        lemma_newlines_none(s.drop_last());
    }
}

/// Counts lines the way `str::lines` would, scanning raw bytes.
pub fn count_lines(content: &[u8]) -> (n: u64)
    ensures
        n == line_count(content@),
{
    let len = content.len();
    if len == 0 {
        return 0;
    }
    let mut count: u64 = 0;
    let mut i: usize = 0;
    while i < len
        invariant
            len == content@.len(),
            i <= len,
            count == newlines(content@.take(i as int)),
            count <= i,
        decreases len - i,
    {
        assert(content@.take(i as int + 1).drop_last() =~= content@.take(i as int));
        if content[i] == 10u8 {
            count = count + 1;
        }
        i = i + 1;
    }
    assert(content@.take(len as int) =~= content@);
    if content[len - 1] == 10u8 {
        count
    } else {
        proof {
            lemma_newlines_le(content@);
        }
        count + 1
    }
}

/// Position of the first line feed, where there is one.
pub open spec fn first_newline(s: Seq<u8>) -> int {
    choose|i: int| 0 <= i < s.len() && s[i] == 10u8 && forall|j: int| 0 <= j < i ==> s[j] != 10u8
}

pub open spec fn has_newline(s: Seq<u8>) -> bool {
    exists|i: int| 0 <= i < s.len() && s[i] == 10u8
}

/// The lines of a text as `str::lines` yields them: the pieces between line
/// feeds, where a final line feed ends the last line rather than starting an
/// empty one (`str::lines` also drops a `'\r'` before each line feed, which
/// changes no count).
pub open spec fn lines(s: Seq<u8>) -> Seq<Seq<u8>>
    decreases s.len(),
{
    if s.len() == 0 {
        seq![]
    } else if !has_newline(s) {
        seq![s]
    } else {
        let i = first_newline(s);
        if 0 <= i < s.len() {
            seq![s.take(i)] + lines(s.skip(i + 1))
        } else {
            seq![]
        }
    }
}

proof fn lemma_first_newline(s: Seq<u8>)
    requires
        has_newline(s),
    ensures
        0 <= first_newline(s) < s.len(),
        s[first_newline(s)] == 10u8,
        forall|j: int| 0 <= j < first_newline(s) ==> s[j] != 10u8,
    decreases s.len(),
{
    let k = choose|i: int| 0 <= i < s.len() && s[i] == 10u8;
    if exists|j: int| 0 <= j < k && s[j] == 10u8 {
        let t = s.take(k);
        let w = choose|j: int| 0 <= j < k && s[j] == 10u8;
        assert(t[w] == s[w]);
        assert(has_newline(t));
        lemma_first_newline(t);
        let f = first_newline(t);
        assert(s[f] == 10u8);
        assert(forall|j: int| 0 <= j < f ==> s[j] == t[j]);
    } else {
        assert(s[k] == 10u8 && forall|j: int| 0 <= j < k ==> s[j] != 10u8);
    }
}

/// `count_lines` agrees with the number of lines `str::lines` yields.
pub proof fn lemma_line_count_is_lines(s: Seq<u8>)
    ensures
        line_count(s) == lines(s).len(),
    decreases s.len(),
{
    if s.len() == 0 {
    } else if !has_newline(s) {
        lemma_newlines_none(s);
    } else {
        lemma_first_newline(s);
        let i = first_newline(s);
        let head = s.take(i);
        let rest = s.skip(i + 1);
        assert(s =~= head + seq![10u8] + rest);
        lemma_newlines_none(head);
        lemma_newlines_concat(head, seq![10u8]);
        lemma_newlines_concat(head + seq![10u8], rest);
        assert(newlines(seq![10u8]) == 1) by {
            let one = seq![10u8];
            assert(one.drop_last() =~= Seq::<u8>::empty());
            assert(one.last() == 10u8);
            assert(newlines(Seq::<u8>::empty()) == 0);
        }
        lemma_line_count_is_lines(rest);
        if rest.len() > 0 {
            assert(s.last() == rest.last());
        }
    }
}

// ---------------------------------------------------------------------------
// Binary detection

/// Only the first bytes are sampled for the binary heuristic.
pub open spec fn binary_sample_len() -> int {
    8000
}

/// A file is taken as binary when a NUL byte occurs among its first 8000
/// bytes.
pub open spec fn looks_binary(s: Seq<u8>) -> bool {
    exists|i: int| 0 <= i < s.len() && i < binary_sample_len() && s[i] == 0u8
}

/// Simple binary-file heuristic: a NUL byte anywhere in the first few KB.
pub fn is_binary(content: &[u8]) -> (b: bool)
    ensures
        b == looks_binary(content@),
{
    let sample_len = if content.len() < 8000 {
        content.len()
    } else {
        8000
    };
    let mut i: usize = 0;
    while i < sample_len
        invariant
            sample_len <= content@.len(),
            sample_len <= 8000,
            sample_len == content@.len() || sample_len == 8000,
            i <= sample_len,
            forall|j: int| 0 <= j < i ==> content@[j] != 0u8,
        decreases sample_len - i,
    {
        if content[i] == 0u8 {
            return true;
        }
        i = i + 1;
    }
    false
}

// ---------------------------------------------------------------------------
// Language keys

/// Lowercase mapping of a text, as `str::to_lowercase` performs it.
pub uninterp spec fn lowercase(s: Seq<char>) -> Seq<char>;

/// Calls `str::to_lowercase`, whose Unicode case mapping is taken as given:
/// the result is `lowercase` of the input's characters.
#[verifier::external_body]
fn to_lowercase(s: &str) -> (r: String)
    ensures
        r@ == lowercase(s@),
{
    s.to_lowercase()
}

/// Position of the last `'.'`, or -1 when there is none.
pub open spec fn last_dot(s: Seq<char>) -> int
    decreases s.len(),
{
    if s.len() == 0 {
        -1
    } else if s.last() == '.' {
        s.len() - 1
    } else {
        last_dot(s.drop_last())
    }
}

/// The language key of a file name: its lowercased extension with the
/// leading dot, or the whole name for names without a dot or whose only dot
/// comes first (e.g. "Dockerfile", ".gitignore").
pub open spec fn extension_key_of(name: Seq<char>) -> Seq<char> {
    if last_dot(name) > 0 {
        lowercase(name.skip(last_dot(name)))
    } else {
        name
    }
}

proof fn lemma_last_dot_step(s: Seq<char>, i: int)
    requires
        0 <= i < s.len(),
    ensures
        last_dot(s.take(i + 1)) == if s[i] == '.' {
            i
        } else {
            last_dot(s.take(i))
        },
{
    assert(s.take(i + 1).drop_last() =~= s.take(i));
}

proof fn lemma_last_dot_range(s: Seq<char>)
    ensures
        -1 <= last_dot(s) < s.len(),
    decreases s.len(),
{
    if s.len() > 0 {
        lemma_last_dot_range(s.drop_last());
    }
}

/// The "language key" of a file: its lowercased extension (with leading
/// dot), or the whole file name for extension-less names and dotfiles.
pub fn extension_key(filename: &str) -> (key: String)
    ensures
        key@ == extension_key_of(filename@),
{
    let n = filename.unicode_len();
    let mut dot: Option<usize> = None;
    let mut i: usize = 0;
    while i < n
        invariant
            n == filename@.len(),
            i <= n,
            match dot {
                Some(p) => p < i && last_dot(filename@.take(i as int)) == p,
                None => last_dot(filename@.take(i as int)) == -1,
            },
        decreases n - i,
    {
        proof {
            lemma_last_dot_step(filename@, i as int);
        }
        if filename.get_char(i) == '.' {
            dot = Some(i);
        }
        i = i + 1;
    }
    assert(filename@.take(n as int) =~= filename@);
    match dot {
        Some(p) => {
            if p > 0 {
                let ext = filename.substring_char(p, n);
                assert(ext@ =~= filename@.skip(p as int));
                to_lowercase(ext)
            } else {
                String::from_str(filename)
            }
        },
        None => String::from_str(filename),
    }
}

/// A file whose bytes hold no 0 byte is never taken for binary.
pub proof fn lemma_no_nul_not_binary(s: Seq<u8>)
    requires
        forall|i: int| 0 <= i < s.len() ==> s[i] != 0u8,
    ensures
        !looks_binary(s),
{
}

/// A 0 byte among the first 8000 bytes makes a file binary.
pub proof fn lemma_nul_in_sample_binary(s: Seq<u8>, i: int)
    requires
        0 <= i < s.len(),
        i < 8000,
        s[i] == 0u8,
    ensures
        looks_binary(s),
{
}

/// A file is binary exactly when one of its first 8000 bytes is 0.
pub proof fn lemma_binary_iff_nul_in_sample(s: Seq<u8>)
    ensures
        looks_binary(s) <==> exists|i: int| 0 <= i < s.len() && i < 8000 && s[i] == 0u8,
{
    if exists|i: int| 0 <= i < s.len() && i < 8000 && s[i] == 0u8 {
        let i = choose|i: int| 0 <= i < s.len() && i < 8000 && s[i] == 0u8;
        lemma_nul_in_sample_binary(s, i);
    }
}

/// Whatever follows the first 8000 bytes of a file does not change whether
/// it is binary.
pub proof fn lemma_binary_ignores_tail(s: Seq<u8>, t: Seq<u8>)
    requires
        s.len() >= 8000,
    ensures
        looks_binary(s + t) == looks_binary(s),
{
    lemma_binary_iff_nul_in_sample(s);
    lemma_binary_iff_nul_in_sample(s + t);
    if looks_binary(s + t) {
        let i = choose|i: int| 0 <= i < (s + t).len() && i < 8000 && (s + t)[i] == 0u8;
        assert(s[i] == 0u8);
    }
    if looks_binary(s) {
        let i = choose|i: int| 0 <= i < s.len() && i < 8000 && s[i] == 0u8;
        assert((s + t)[i] == 0u8);
    }
}

/// The last `.` of a name is at `p` when `p` holds a `.` and no later
/// character does.
proof fn lemma_last_dot_at(name: Seq<char>, p: int)
    requires
        0 <= p < name.len(),
        name[p] == '.',
        forall|j: int| p < j < name.len() ==> name[j] != '.',
    ensures
        last_dot(name) == p,
    decreases name.len(),
{
    if name.last() != '.' {
        lemma_last_dot_at(name.drop_last(), p);
    }
}

/// A name with no `.` after its first character has no dot past index 0.
proof fn lemma_last_dot_none_past_start(name: Seq<char>)
    requires
        forall|j: int| 0 < j < name.len() ==> name[j] != '.',
    ensures
        last_dot(name) <= 0,
    decreases name.len(),
{
    if name.len() > 0 && name.last() != '.' {
        lemma_last_dot_none_past_start(name.drop_last());
    }
}

/// When the last `.` of a name lies past its first character, the key is
/// the lowercased suffix from that dot, whatever the name begins with
/// (".eslintrc.json" is keyed ".json").
pub proof fn lemma_extension_key_from_last_dot(name: Seq<char>, p: int)
    requires
        0 < p < name.len(),
        name[p] == '.',
        forall|j: int| p < j < name.len() ==> name[j] != '.',
    ensures
        extension_key_of(name) == lowercase(name.skip(p)),
{
    lemma_last_dot_at(name, p);
}

/// A name with no `.` after its first character (no extension, or a
/// dotfile such as ".gitignore") is keyed by the whole name, as it is.
pub proof fn lemma_extension_key_whole_name(name: Seq<char>)
    requires
        forall|j: int| 0 < j < name.len() ==> name[j] != '.',
    ensures
        extension_key_of(name) == name,
{
    lemma_last_dot_none_past_start(name);
}

} // verus!
