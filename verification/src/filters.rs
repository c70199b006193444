//! Filters on language keys: comma-separated regular expressions, of which a
//! file's key must match at least one to be counted.

use vstd::prelude::*;
use vstd::string::*;
use regex::Regex;
use crate::error::AppError;
use crate::text::{
    concat, concat_spec, index_of_char, lemma_index_of_char_absent, lemma_index_of_char_found,
    lemma_trim_end_take, lemma_trim_start_skip, split_on, trim, trim_start, white_space,
};

verus! {

/// `regex::Regex`, carried through opaquely.
#[verifier::external_type_specification]
#[verifier::external_body]
pub struct ExRegex(Regex);

/// The outcome of `Regex::new` on a pattern: `None` when it compiles, or the
/// text of the error it reports.
pub uninterp spec fn regex_compile_error(pattern: Seq<char>) -> Option<Seq<char>>;

/// Whether the regular expression `pattern` matches somewhere in `haystack`,
/// as `Regex::is_match` decides it.
pub uninterp spec fn regex_is_match(pattern: Seq<char>, haystack: Seq<char>) -> bool;

/// A compiled language-key filter, together with the pattern it was compiled
/// from.
pub struct Filter {
    pattern: String,
    regex: Regex,
}

impl View for Filter {
    type V = Seq<char>;

    closed spec fn view(&self) -> Seq<char> {
        self.pattern@
    }
}

/// Calls `Regex::new` on a pattern and keeps the pattern beside the
/// expression compiled from it; an error is turned into the text it
/// displays. Claimed: the call succeeds exactly when `regex_compile_error`
/// is `None`, the filter's pattern is the one given, and it fails with that
/// text otherwise.
#[verifier::external_body]
fn compile_filter(pattern: &str) -> (r: Result<Filter, String>)
    ensures
        r is Ok <==> regex_compile_error(pattern@) is None,
        r matches Ok(f) ==> f@ == pattern@,
        r matches Err(m) ==> regex_compile_error(pattern@) == Some(m@),
{
    Regex::new(pattern).map(|regex| Filter { pattern: pattern.to_string(), regex }).map_err(
        |e| e.to_string(),
    )
}

/// Calls `Regex::is_match` on the filter's compiled expression. Claimed: the
/// answer is `regex_is_match` of the filter's pattern; a `Filter` is only
/// built by `compile_filter`, from a pattern and the expression compiled
/// from that very pattern.
#[verifier::external_body]
fn filter_is_match(filter: &Filter, haystack: &str) -> (b: bool)
    ensures
        b == regex_is_match(filter@, haystack@),
{
    filter.regex.is_match(haystack)
}

impl Filter {
    /// The pattern this filter was compiled from.
    pub fn pattern(&self) -> (p: &str)
        ensures
            p@ == self@,
    {
        self.pattern.as_str()
    }
}

pub open spec fn filter_views(fs: Seq<Filter>) -> Seq<Seq<char>> {
    fs.map_values(|f: Filter| f@)
}

/// A language key is counted when there are no filters, or when one of them
/// matches it.
pub open spec fn passes_filters(patterns: Seq<Seq<char>>, key: Seq<char>) -> bool {
    patterns.len() == 0 || exists|i: int| 0 <= i < patterns.len() && regex_is_match(patterns[i], key)
}

/// Whether a language key passes the filters.
pub fn matches_filters(filters: &[Filter], key: &str) -> (b: bool)
    ensures
        b == passes_filters(filter_views(filters@), key@),
{
    if filters.len() == 0 {
        return true;
    }
    let mut i: usize = 0;
    while i < filters.len()
        invariant
            i <= filters@.len(),
            forall|j: int| 0 <= j < i ==> !regex_is_match(filters@[j]@, key@),
        decreases filters.len() - i,
    {
        if filter_is_match(&filters[i], key) {
            assert(filter_views(filters@)[i as int] == filters@[i as int]@);
            return true;
        }
        i = i + 1;
    }
    assert forall|j: int| 0 <= j < filters@.len() implies !regex_is_match(
        filter_views(filters@)[j],
        key@,
    ) by {
        assert(filter_views(filters@)[j] == filters@[j]@);
    }
    false
}

/// The non-empty pieces, trimmed, in order.
pub open spec fn patterns_of(pieces: Seq<Seq<char>>) -> Seq<Seq<char>>
    decreases pieces.len(),
{
    if pieces.len() == 0 {
        seq![]
    } else {
        let rest = patterns_of(pieces.drop_last());
        if trim(pieces.last()).len() > 0 {
            rest.push(trim(pieces.last()))
        } else {
            rest
        }
    }
}

/// The patterns a `filter` query parameter lists: split at commas, each
/// piece trimmed, empty pieces dropped.
pub open spec fn filter_patterns(raw: Seq<char>) -> Seq<Seq<char>> {
    patterns_of(split_on(raw, ','))
}

/// Position of the first pattern that does not compile, or -1.
pub open spec fn first_invalid(patterns: Seq<Seq<char>>) -> int
    decreases patterns.len(),
{
    if patterns.len() == 0 {
        -1
    } else if regex_compile_error(patterns[0]) is Some {
        0
    } else {
        let r = first_invalid(patterns.drop_first());
        if r < 0 {
            -1
        } else {
            r + 1
        }
    }
}

/// The message that answers a pattern that does not compile.
pub open spec fn invalid_filter_message(pattern: Seq<char>, error: Seq<char>) -> Seq<char> {
    concat_spec(seq!["invalid filter regex '"@, pattern, "': "@, error])
}

proof fn lemma_patterns_of_concat(a: Seq<Seq<char>>, b: Seq<Seq<char>>)
    ensures
        patterns_of(a + b) == patterns_of(a) + patterns_of(b),
    decreases b.len(),
{
    if b.len() == 0 {
        assert(a + b =~= a);
        assert(patterns_of(a) + patterns_of(b) =~= patterns_of(a));
    } else {
        lemma_patterns_of_concat(a, b.drop_last());
        assert((a + b).drop_last() =~= a + b.drop_last());
        if trim(b.last()).len() > 0 {
            assert(patterns_of(a) + patterns_of(b.drop_last()).push(trim(b.last())) =~= (
            patterns_of(a) + patterns_of(b.drop_last())).push(trim(b.last())));
        }
    }
}

proof fn lemma_first_invalid_range(a: Seq<Seq<char>>)
    ensures
        -1 <= first_invalid(a) < a.len(),
    decreases a.len(),
{
    if a.len() > 0 {
        lemma_first_invalid_range(a.drop_first());
    }
}

proof fn lemma_first_invalid_push(a: Seq<Seq<char>>, x: Seq<char>)
    requires
        first_invalid(a) == -1,
        regex_compile_error(x) is None,
    ensures
        first_invalid(a.push(x)) == -1,
    decreases a.len(),
{
    let ax = a.push(x);
    if a.len() > 0 {
        lemma_first_invalid_range(a.drop_first());
        assert(regex_compile_error(a[0]) is None);
        assert(first_invalid(a.drop_first()) == -1);
        lemma_first_invalid_push(a.drop_first(), x);
        assert(ax.drop_first() =~= a.drop_first().push(x));
        assert(ax[0] == a[0]);
        assert(first_invalid(ax.drop_first()) == -1);
    } else {
        assert(ax.drop_first() =~= Seq::<Seq<char>>::empty());
        assert(ax[0] == x);
        assert(first_invalid(ax.drop_first()) == -1);
    }
}

proof fn lemma_first_invalid_at(a: Seq<Seq<char>>, b: Seq<Seq<char>>)
    requires
        first_invalid(a) == -1,
        b.len() > 0,
        regex_compile_error(b[0]) is Some,
    ensures
        first_invalid(a + b) == a.len(),
    decreases a.len(),
{
    if a.len() > 0 {
        lemma_first_invalid_at(a.drop_first(), b);
        assert((a + b).drop_first() =~= a.drop_first() + b);
    } else {
        assert(a + b =~= b);
    }
}

/// What parsing a `filter` parameter gives: the compiled filters, or the
/// error for the first pattern that does not compile.
pub open spec fn filters_outcome(raw: Seq<char>, r: Result<Vec<Filter>, AppError>) -> bool {
    let pats = filter_patterns(raw);
    let k = first_invalid(pats);
    if k < 0 {
        r matches Ok(v) && filter_views(v@) == pats
    } else {
        &&& 0 <= k < pats.len()
        &&& r matches Err(AppError::BadRequest(m)) && m@ == invalid_filter_message(
            pats[k],
            regex_compile_error(pats[k])->0,
        )
    }
}

/// The piece of `s` from `start` up to the next comma at `j` (or the end) is
/// the first piece that splitting the rest yields.
proof fn lemma_split_piece(s: Seq<char>, start: int, j: int)
    requires
        0 <= start <= j <= s.len(),
        forall|t: int| start <= t < j ==> s[t] != ',',
        j < s.len() ==> s[j] == ',',
    ensures
        j < s.len() ==> split_on(s.skip(start), ',') == seq![s.subrange(start, j)] + split_on(
            s.skip(j + 1),
            ',',
        ),
        j == s.len() ==> split_on(s.skip(start), ',') == seq![s.subrange(start, j)],
{
    let rest = s.skip(start);
    let piece = s.subrange(start, j);
    if j < s.len() {
        assert(rest[j - start] == ',');
        assert forall|t: int| 0 <= t < j - start implies rest[t] != ',' by {
            assert(rest[t] == s[start + t]);
        }
        lemma_index_of_char_found(rest, ',', j - start);
        assert(rest.take(j - start) =~= piece);
        assert(rest.skip(j - start + 1) =~= s.skip(j + 1));
    } else {
        assert forall|t: int| 0 <= t < rest.len() implies rest[t] != ',' by {
            assert(rest[t] == s[start + t]);
        }
        lemma_index_of_char_absent(rest, ',');
        assert(rest =~= piece);
    }
}

/// Trimming the piece `s[start..j]` leaves `s[a..b]` when only white space
/// lies outside `a..b` and the ends of `a..b` are not white space.
proof fn lemma_trim_piece(s: Seq<char>, start: int, a: int, b: int, j: int)
    requires
        0 <= start <= a <= b <= j <= s.len(),
        forall|t: int| start <= t < a ==> crate::text::is_white_space(s[t]),
        forall|t: int| b <= t < j ==> crate::text::is_white_space(s[t]),
        a == j || !crate::text::is_white_space(s[a]),
        b == a || !crate::text::is_white_space(s[b - 1]),
    ensures
        trim(s.subrange(start, j)) == s.subrange(a, b),
{
    let piece = s.subrange(start, j);
    lemma_trim_start_skip(piece, a - start);
    let ts = piece.skip(a - start);
    assert(ts =~= s.subrange(a, j));
    lemma_trim_end_take(ts, b - a);
    assert(ts.take(b - a) =~= s.subrange(a, b));
}

/// Parses the `filter` query parameter into compiled filters: no parameter
/// means no filters.
pub fn parse_filters(filter: Option<&str>) -> (r: Result<Vec<Filter>, AppError>)
    ensures
        match filter {
            None => r matches Ok(v) && v@.len() == 0,
            Some(raw) => filters_outcome(raw@, r),
        },
{
    match filter {
        None => Ok(Vec::new()),
        Some(raw) => parse_filter_list(raw),
    }
}

fn parse_filter_list(raw: &str) -> (r: Result<Vec<Filter>, AppError>)
    ensures
        filters_outcome(raw@, r),
{
    let n = raw.unicode_len();
    let ghost s = raw@;
    let mut out: Vec<Filter> = Vec::new();
    let mut start: usize = 0;
    let ghost mut done: Seq<Seq<char>> = seq![];
    assert(s.skip(0) =~= s);
    loop
        invariant_except_break
            start <= n,
            n == s.len(),
            s == raw@,
            split_on(s, ',') == done + split_on(s.skip(start as int), ','),
            filter_views(out@) == patterns_of(done),
            first_invalid(patterns_of(done)) == -1,
        ensures
            split_on(s, ',') == done,
            filter_views(out@) == patterns_of(done),
            first_invalid(patterns_of(done)) == -1,
        decreases n - start,
    {
        let mut j = start;
        while j < n && raw.get_char(j) != ','
            invariant
                start <= j <= n,
                n == s.len(),
                s == raw@,
                forall|t: int| start <= t < j ==> s[t] != ',',
            decreases n - j,
        {
            j = j + 1;
        }
        let ghost piece = s.subrange(start as int, j as int);
        proof {
            lemma_split_piece(s, start as int, j as int);
        }
        // Trim the piece.
        let mut a = start;
        while a < j && white_space(raw.get_char(a))
            invariant
                start <= a <= j <= n,
                n == s.len(),
                s == raw@,
                forall|t: int| start <= t < a ==> crate::text::is_white_space(s[t]),
            decreases j - a,
        {
            a = a + 1;
        }
        let mut b = j;
        while b > a && white_space(raw.get_char(b - 1))
            invariant
                start <= a <= b <= j <= n,
                n == s.len(),
                s == raw@,
                forall|t: int| b <= t < j ==> crate::text::is_white_space(s[t]),
            decreases b - a,
        {
            b = b - 1;
        }
        proof {
            lemma_trim_piece(s, start as int, a as int, b as int, j as int);
        }
        let ghost old_done = done;
        proof {
            done = done.push(piece);
            assert(done.drop_last() =~= old_done);
        }
        if a < b {
            let pattern = raw.substring_char(a, b);
            match compile_filter(pattern) {
                Ok(f) => {
                    proof {
                        lemma_first_invalid_push(patterns_of(old_done), pattern@);
                    }
                    out.push(f);
                    assert(filter_views(out@) =~= patterns_of(done));
                },
                Err(e) => {
                    let err = e.as_str();
                    let msg = concat(&["invalid filter regex '", pattern, "': ", err]);
                    proof {
                        let later = if j < n {
                            split_on(s.skip(j + 1), ',')
                        } else {
                            Seq::<Seq<char>>::empty()
                        };
                        assert(split_on(s, ',') =~= done + later);
                        lemma_patterns_of_concat(done, later);
                        let pats = filter_patterns(s);
                        assert(pats == patterns_of(old_done).push(pattern@) + patterns_of(later));
                        assert(pats =~= patterns_of(old_done) + (seq![pattern@] + patterns_of(later)));
                        lemma_first_invalid_at(patterns_of(old_done), seq![pattern@] + patterns_of(later));
                        assert(pats[patterns_of(old_done).len() as int] == pattern@);
                        assert(seq!["invalid filter regex '", pattern, "': ", err].map_values(
                            |p: &str| p@,
                        ) =~= seq!["invalid filter regex '"@, pattern@, "': "@, e@]);
                    }
                    return Err(AppError::BadRequest(msg));
                },
            }
        } else {
            assert(patterns_of(done) == patterns_of(old_done));
        }
        if j == n {
            assert(split_on(s, ',') =~= done);
            break;
        }
        start = j + 1;
    }
    Ok(out)
}

} // verus!
