use vstd::prelude::*;

verus! {

/// Unicode's White_Space property, which `char::is_whitespace` tests.
pub open spec fn is_whitespace(c: char) -> bool {
    ||| '\u{9}' <= c <= '\u{d}'
    ||| c == ' '
    ||| c == '\u{85}'
    ||| c == '\u{a0}'
    ||| c == '\u{1680}'
    ||| '\u{2000}' <= c <= '\u{200a}'
    ||| c == '\u{2028}'
    ||| c == '\u{2029}'
    ||| c == '\u{202f}'
    ||| c == '\u{205f}'
    ||| c == '\u{3000}'
}

/// Tests a char for Unicode white space, as `char::is_whitespace` does.
pub fn is_whitespace_char(c: char) -> (r: bool)
    ensures
        r == is_whitespace(c),
{
    ('\u{9}' <= c && c <= '\u{d}') || c == ' ' || c == '\u{85}' || c == '\u{a0}' || c
        == '\u{1680}' || ('\u{2000}' <= c && c <= '\u{200a}') || c == '\u{2028}' || c
        == '\u{2029}' || c == '\u{202f}' || c == '\u{205f}' || c == '\u{3000}'
}

/// The chars that a strip removes: white space, or one given char.
#[derive(Clone, Copy)]
pub enum CharClass {
    Whitespace,
    Exactly(char),
}

pub open spec fn in_class(cl: CharClass, c: char) -> bool {
    match cl {
        CharClass::Whitespace => is_whitespace(c),
        CharClass::Exactly(x) => c == x,
    }
}

fn in_class_exec(cl: CharClass, c: char) -> (r: bool)
    ensures
        r == in_class(cl, c),
{
    match cl {
        CharClass::Whitespace => is_whitespace_char(c),
        CharClass::Exactly(x) => c == x,
    }
}

/// The text without its leading chars of a class.
pub open spec fn strip_start(s: Seq<char>, cl: CharClass) -> Seq<char>
    decreases s.len(),
{
    if s.len() > 0 && in_class(cl, s[0]) {
        strip_start(s.drop_first(), cl)
    } else {
        s
    }
}

/// The text without its trailing chars of a class.
pub open spec fn strip_end(s: Seq<char>, cl: CharClass) -> Seq<char>
    decreases s.len(),
{
    if s.len() > 0 && in_class(cl, s.last()) {
        strip_end(s.drop_last(), cl)
    } else {
        s
    }
}

/// The text without its leading and trailing white space, as `str::trim`
/// gives it.
pub open spec fn trim(s: Seq<char>) -> Seq<char> {
    strip_end(strip_start(s, CharClass::Whitespace), CharClass::Whitespace)
}

/// The text without its leading and trailing `c`, as `str::trim_matches(c)`
/// gives it.
pub open spec fn trim_char(s: Seq<char>, c: char) -> Seq<char> {
    strip_end(strip_start(s, CharClass::Exactly(c)), CharClass::Exactly(c))
}

proof fn lemma_strip_start_from(s: Seq<char>, cl: CharClass, i: int)
    requires
        0 <= i <= s.len(),
        forall|k: int| 0 <= k < i ==> in_class(cl, #[trigger] s[k]),
        i == s.len() || !in_class(cl, s[i]),
    ensures
        strip_start(s, cl) == s.subrange(i, s.len() as int),
    decreases i,
{
    if i > 0 {
        assert forall|k: int| 0 <= k < i - 1 implies in_class(cl, #[trigger] s.drop_first()[k]) by {
            assert(s.drop_first()[k] == s[k + 1]);
        }
        lemma_strip_start_from(s.drop_first(), cl, i - 1);
        assert(s.drop_first().subrange(i - 1, s.len() - 1) =~= s.subrange(i, s.len() as int));
    } else {
        assert(s.subrange(0, s.len() as int) =~= s);
    }
}

proof fn lemma_strip_end_to(s: Seq<char>, cl: CharClass, j: int)
    requires
        0 <= j <= s.len(),
        forall|k: int| j <= k < s.len() ==> in_class(cl, #[trigger] s[k]),
        j == 0 || !in_class(cl, s[j - 1]),
    ensures
        strip_end(s, cl) == s.subrange(0, j),
    decreases s.len(),
{
    if j < s.len() {
        assert forall|k: int| j <= k < s.len() - 1 implies in_class(cl, #[trigger] s.drop_last()[k]) by {
            assert(s.drop_last()[k] == s[k]);
        }
        lemma_strip_end_to(s.drop_last(), cl, j);
        assert(s.drop_last().subrange(0, j) =~= s.subrange(0, j));
    } else {
        assert(s.subrange(0, j) =~= s);
    }
}

/// The bounds `(start, end)` of the part of a text left when its leading
/// and trailing chars of a class are stripped.
pub fn strip_bounds(s: &Vec<char>, cl: CharClass) -> (r: (usize, usize))
    ensures
        r.0 <= r.1 <= s@.len(),
        strip_end(strip_start(s@, cl), cl) == s@.subrange(r.0 as int, r.1 as int),
{
    let n = s.len();
    let mut i: usize = 0;
    while i < n && in_class_exec(cl, s[i])
        invariant
            n == s@.len(),
            i <= n,
            forall|k: int| 0 <= k < i ==> in_class(cl, #[trigger] s@[k]),
        decreases n - i,
    {
        i = i + 1;
    }
    proof {
        lemma_strip_start_from(s@, cl, i as int);
    }
    let mut j: usize = n;
    while j > i && in_class_exec(cl, s[j - 1])
        invariant
            n == s@.len(),
            i <= j <= n,
            forall|k: int| j <= k < n ==> in_class(cl, #[trigger] s@[k]),
        decreases j,
    {
        j = j - 1;
    }
    proof {
        let t = s@.subrange(i as int, n as int);
        assert forall|k: int| j - i <= k < t.len() implies in_class(cl, #[trigger] t[k]) by {
            assert(t[k] == s@[k + i]);
        }
        if j > i {
            assert(t[j - i - 1] == s@[j - 1]);
        }
        lemma_strip_end_to(t, cl, j - i);
        assert(t.subrange(0, j - i) =~= s@.subrange(i as int, j as int));
    }
    (i, j)
}

/// The bound of the part of a text left when its trailing chars of a class
/// are stripped.
pub fn strip_end_bound(s: &Vec<char>, cl: CharClass) -> (r: usize)
    ensures
        r <= s@.len(),
        strip_end(s@, cl) == s@.subrange(0, r as int),
{
    let n = s.len();
    let mut j: usize = n;
    while j > 0 && in_class_exec(cl, s[j - 1])
        invariant
            n == s@.len(),
            j <= n,
            forall|k: int| j <= k < n ==> in_class(cl, #[trigger] s@[k]),
        decreases j,
    {
        j = j - 1;
    }
    proof {
        lemma_strip_end_to(s@, cl, j as int);
    }
    j
}

/// The index of the first char of a class in a text, or the text's length
/// when it has none.
pub open spec fn first_in_class(s: Seq<char>, cl: CharClass) -> int
    decreases s.len(),
{
    if s.len() == 0 {
        0
    } else if in_class(cl, s[0]) {
        0
    } else {
        1 + first_in_class(s.drop_first(), cl)
    }
}

/// The index that [`first_in_class`] gives is that of a char of the class,
/// when it lies within the text, and no char before it is of the class.
pub proof fn lemma_first_in_class_found(s: Seq<char>, cl: CharClass)
    ensures
        0 <= first_in_class(s, cl) <= s.len(),
        first_in_class(s, cl) < s.len() ==> in_class(cl, s[first_in_class(s, cl)]),
        forall|k: int| 0 <= k < first_in_class(s, cl) ==> !in_class(cl, #[trigger] s[k]),
    decreases s.len(),
{
    if s.len() > 0 && !in_class(cl, s[0]) {
        lemma_first_in_class_found(s.drop_first(), cl);
        assert forall|k: int| 0 <= k < first_in_class(s, cl) implies !in_class(cl, #[trigger] s[k]) by {
            if k > 0 {
                assert(s[k] == s.drop_first()[k - 1]);
            }
        }
    }
}

proof fn lemma_first_in_class(s: Seq<char>, cl: CharClass, i: int)
    requires
        0 <= i <= s.len(),
        forall|k: int| 0 <= k < i ==> !in_class(cl, #[trigger] s[k]),
        i == s.len() || in_class(cl, s[i]),
    ensures
        first_in_class(s, cl) == i,
    decreases i,
{
    if i > 0 {
        assert forall|k: int| 0 <= k < i - 1 implies !in_class(cl, #[trigger] s.drop_first()[k]) by {
            assert(s.drop_first()[k] == s[k + 1]);
        }
        lemma_first_in_class(s.drop_first(), cl, i - 1);
    }
}

/// Finds the first char of a class at or after `from`, or the length.
pub fn find_in_class(s: &Vec<char>, from: usize, cl: CharClass) -> (r: usize)
    requires
        from <= s@.len(),
    ensures
        from <= r <= s@.len(),
        r - from == first_in_class(s@.subrange(from as int, s@.len() as int), cl),
{
    let n = s.len();
    let mut i = from;
    while i < n && !in_class_exec(cl, s[i])
        invariant
            n == s@.len(),
            from <= i <= n,
            forall|k: int| from <= k < i ==> !in_class(cl, #[trigger] s@[k]),
        decreases n - i,
    {
        i = i + 1;
    }
    proof {
        let t = s@.subrange(from as int, n as int);
        assert forall|k: int| 0 <= k < i - from implies !in_class(cl, #[trigger] t[k]) by {
            assert(t[k] == s@[k + from]);
        }
        if i < n {
            assert(t[i - from] == s@[i as int]);
        }
        lemma_first_in_class(t, cl, i - from);
    }
    i
}

/// The model of a list of texts.
pub open spec fn texts_view(v: Seq<Vec<char>>) -> Seq<Seq<char>> {
    v.map_values(|l: Vec<char>| l@)
}

/// The lines of a text: the parts between its newlines (a text that ends
/// with a newline has an empty last line).
pub open spec fn split_lines(s: Seq<char>) -> Seq<Seq<char>>
    decreases s.len(),
{
    if s.len() == 0 {
        seq![seq![]]
    } else {
        let prev = split_lines(s.drop_last());
        if s.last() == '\n' {
            prev.push(seq![])
        } else {
            prev.update(prev.len() - 1, prev.last().push(s.last()))
        }
    }
}

proof fn lemma_split_lines_nonempty(s: Seq<char>)
    ensures
        split_lines(s).len() >= 1,
    decreases s.len(),
{
    if s.len() > 0 {
        lemma_split_lines_nonempty(s.drop_last());
    }
}

/// Splits a text into its lines.
pub fn lines_of(s: &Vec<char>) -> (lines: Vec<Vec<char>>)
    ensures
        texts_view(lines@) == split_lines(s@),
{
    let mut lines: Vec<Vec<char>> = Vec::new();
    let mut cur: Vec<char> = Vec::new();
    let mut i: usize = 0;
    while i < s.len()
        invariant
            i <= s@.len(),
            texts_view(lines@).push(cur@) == split_lines(s@.take(i as int)),
        decreases s@.len() - i,
    {
        let c = s[i];
        proof {
            lemma_split_lines_nonempty(s@.take(i as int));
            assert(s@.take(i + 1).drop_last() =~= s@.take(i as int));
        }
        if c == '\n' {
            let mut done: Vec<char> = Vec::new();
            std::mem::swap(&mut done, &mut cur);
            lines.push(done);
            assert(texts_view(lines@).push(cur@) =~= split_lines(
                s@.take(i + 1),
            ));
        } else {
            let ghost before = texts_view(lines@).push(cur@);
            cur.push(c);
            assert(texts_view(lines@).push(cur@) =~= before.update(
                before.len() - 1,
                before.last().push(c),
            ));
        }
        i = i + 1;
    }
    lines.push(cur);
    assert(s@.take(s@.len() as int) =~= s@);
    lines
}

/// The words of a text, as `str::split_whitespace` gives them: its maximal
/// runs of chars that are not white space, in order.
pub open spec fn words(s: Seq<char>) -> Seq<Seq<char>>
    decreases s.len(),
{
    if s.len() == 0 {
        seq![]
    } else if is_whitespace(s[0]) {
        words(s.drop_first())
    } else {
        let w = first_in_class(s, CharClass::Whitespace);
        proof {
            lemma_first_in_class_found(s, CharClass::Whitespace);
        }
        seq![s.take(w)] + words(s.skip(w))
    }
}

pub proof fn lemma_strip_start_first(s: Seq<char>, cl: CharClass)
    ensures
        strip_start(s, cl).len() <= s.len(),
        strip_start(s, cl).len() > 0 ==> !in_class(cl, strip_start(s, cl)[0]),
    decreases s.len(),
{
    if s.len() > 0 && in_class(cl, s[0]) {
        lemma_strip_start_first(s.drop_first(), cl);
    }
}

pub proof fn lemma_strip_end_first(s: Seq<char>, cl: CharClass)
    ensures
        strip_end(s, cl).len() <= s.len(),
        strip_end(s, cl).len() > 0 ==> strip_end(s, cl)[0] == s[0],
    decreases s.len(),
{
    if s.len() > 0 && in_class(cl, s.last()) {
        lemma_strip_end_first(s.drop_last(), cl);
    }
}

/// A trimmed text, when not empty, starts with a char that is not white
/// space.
pub proof fn lemma_trim_starts_with_word(s: Seq<char>)
    ensures
        trim(s).len() > 0 ==> !is_whitespace(trim(s)[0]),
{
    lemma_strip_start_first(s, CharClass::Whitespace);
    lemma_strip_end_first(strip_start(s, CharClass::Whitespace), CharClass::Whitespace);
}

/// The first word of a text that starts with a char that is not white
/// space runs up to its first white space.
pub proof fn lemma_first_word(s: Seq<char>)
    requires
        s.len() > 0,
        !is_whitespace(s[0]),
    ensures
        words(s).len() > 0,
        words(s)[0] == s.take(first_in_class(s, CharClass::Whitespace)),
{
    lemma_first_in_class_found(s, CharClass::Whitespace);
}

/// A strip leaves nothing exactly when every char is of the class.
pub proof fn lemma_strip_empty(s: Seq<char>, cl: CharClass)
    ensures
        strip_start(s, cl).len() == 0 <==> forall|k: int| 0 <= k < s.len() ==> in_class(cl, #[trigger] s[k]),
        strip_end(s, cl).len() == 0 <==> forall|k: int| 0 <= k < s.len() ==> in_class(cl, #[trigger] s[k]),
    decreases s.len(),
{
    if s.len() > 0 {
        lemma_strip_empty(s.drop_first(), cl);
        lemma_strip_empty(s.drop_last(), cl);
        if forall|k: int| 0 <= k < s.len() ==> in_class(cl, #[trigger] s[k]) {
            assert forall|k: int| 0 <= k < s.len() - 1 implies in_class(cl, #[trigger] s.drop_first()[k]) by {
                assert(s.drop_first()[k] == s[k + 1]);
            }
            assert forall|k: int| 0 <= k < s.len() - 1 implies in_class(cl, #[trigger] s.drop_last()[k]) by {
                assert(s.drop_last()[k] == s[k]);
            }
        } else {
            let k = choose|k: int| 0 <= k < s.len() && !in_class(cl, #[trigger] s[k]);
            if in_class(cl, s[0]) {
                assert(s.drop_first()[k - 1] == s[k]);
            }
            if in_class(cl, s.last()) {
                assert(s.drop_last()[k] == s[k]);
            }
        }
    }
}

/// What a strip leaves at the end of a text does not end with a char of the
/// class.
pub proof fn lemma_strip_end_last(s: Seq<char>, cl: CharClass)
    ensures
        strip_end(s, cl).len() > 0 ==> !in_class(cl, strip_end(s, cl).last()),
    decreases s.len(),
{
    if s.len() > 0 && in_class(cl, s.last()) {
        lemma_strip_end_last(s.drop_last(), cl);
    }
}

/// Stripping the start of two texts put together.
pub proof fn lemma_strip_start_concat(a: Seq<char>, b: Seq<char>, cl: CharClass)
    ensures
        strip_start(a + b, cl) == if strip_start(a, cl).len() > 0 {
            strip_start(a, cl) + b
        } else {
            strip_start(b, cl)
        },
    decreases a.len(),
{
    if a.len() == 0 {
        assert(a + b =~= b);
    } else {
        assert((a + b)[0] == a[0]);
        if in_class(cl, a[0]) {
            assert((a + b).drop_first() =~= a.drop_first() + b);
            lemma_strip_start_concat(a.drop_first(), b, cl);
        }
    }
}

/// Stripping the end of two texts put together.
pub proof fn lemma_strip_end_concat(a: Seq<char>, b: Seq<char>, cl: CharClass)
    ensures
        strip_end(a + b, cl) == if strip_end(b, cl).len() > 0 {
            a + strip_end(b, cl)
        } else {
            strip_end(a, cl)
        },
    decreases b.len(),
{
    if b.len() == 0 {
        assert(a + b =~= a);
    } else {
        assert((a + b).last() == b.last());
        if in_class(cl, b.last()) {
            assert((a + b).drop_last() =~= a + b.drop_last());
            lemma_strip_end_concat(a, b.drop_last(), cl);
        }
    }
}

/// The first char of a class in two texts put together.
pub proof fn lemma_first_in_class_concat(a: Seq<char>, b: Seq<char>, cl: CharClass)
    ensures
        first_in_class(a + b, cl) == if first_in_class(a, cl) < a.len() {
            first_in_class(a, cl)
        } else {
            a.len() + first_in_class(b, cl)
        },
    decreases a.len(),
{
    lemma_first_in_class_found(a, cl);
    if a.len() == 0 {
        assert(a + b =~= b);
    } else {
        assert((a + b)[0] == a[0]);
        if !in_class(cl, a[0]) {
            assert((a + b).drop_first() =~= a.drop_first() + b);
            lemma_first_in_class_concat(a.drop_first(), b, cl);
        }
    }
}

/// White space around a text does not change its trim.
pub proof fn lemma_trim_around(pre: Seq<char>, s: Seq<char>, post: Seq<char>)
    requires
        forall|k: int| 0 <= k < pre.len() ==> is_whitespace(#[trigger] pre[k]),
        forall|k: int| 0 <= k < post.len() ==> is_whitespace(#[trigger] post[k]),
    ensures
        trim(pre + s + post) == trim(s),
{
    let ws = CharClass::Whitespace;
    lemma_strip_empty(pre, ws);
    lemma_strip_empty(post, ws);
    assert(pre + s + post =~= pre + (s + post));
    lemma_strip_start_concat(pre, s + post, ws);
    lemma_strip_start_concat(s, post, ws);
    lemma_strip_end_concat(strip_start(s, ws), post, ws);
}

/// Splits a text into its words, as [`words`] says.
pub fn split_words(v: &Vec<char>) -> (r: Vec<Vec<char>>)
    ensures
        texts_view(r@) == words(v@),
{
    let mut r: Vec<Vec<char>> = Vec::new();
    let mut i: usize = 0;
    let n = v.len();
    assert(v@.skip(0) =~= v@);
    while i < n
        invariant
            n == v@.len(),
            i <= n,
            words(v@) == texts_view(r@) + words(v@.skip(i as int)),
        decreases n - i,
    {
        let ghost rest = v@.skip(i as int);
        assert(rest[0] == v@[i as int]);
        if is_whitespace_char(v[i]) {
            assert(rest.drop_first() =~= v@.skip(i + 1));
            i = i + 1;
        } else {
            let j = find_in_class(v, i, CharClass::Whitespace);
            assert(v@.subrange(i as int, n as int) =~= rest);
            proof {
                lemma_first_in_class_found(rest, CharClass::Whitespace);
            }
            let word = copy_range(v, i, j);
            let ghost before = texts_view(r@);
            r.push(word);
            assert(rest.take(j - i) =~= word@);
            assert(rest.skip(j - i) =~= v@.skip(j as int));
            assert(texts_view(r@) =~= before.push(word@));
            assert(words(v@) =~= texts_view(r@) + words(v@.skip(j as int)));
            i = j;
        }
    }
    assert(v@.skip(n as int).len() == 0);
    assert(words(v@) =~= texts_view(r@));
    r
}

/// A copy of a range of chars.
pub fn copy_range(v: &Vec<char>, start: usize, end: usize) -> (r: Vec<char>)
    requires
        start <= end <= v@.len(),
    ensures
        r@ == v@.subrange(start as int, end as int),
{
    let mut r: Vec<char> = Vec::new();
    let mut i = start;
    while i < end
        invariant
            start <= i <= end <= v@.len(),
            r@ == v@.subrange(start as int, i as int),
        decreases end - i,
    {
        r.push(v[i]);
        i = i + 1;
        assert(r@ =~= v@.subrange(start as int, i as int));
    }
    r
}

/// Whether two texts are equal.
pub fn chars_equal(a: &Vec<char>, b: &Vec<char>) -> (r: bool)
    ensures
        r == (a@ == b@),
{
    if a.len() != b.len() {
        return false;
    }
    let mut i: usize = 0;
    while i < a.len()
        invariant
            a@.len() == b@.len(),
            i <= a@.len(),
            forall|k: int| 0 <= k < i ==> a@[k] == b@[k],
        decreases a@.len() - i,
    {
        if a[i] != b[i] {
            return false;
        }
        i = i + 1;
    }
    assert(a@ =~= b@);
    true
}

/// Whether a text holds a char.
pub fn contains_char(s: &Vec<char>, c: char) -> (r: bool)
    ensures
        r == s@.contains(c),
{
    let mut i: usize = 0;
    while i < s.len()
        invariant
            i <= s@.len(),
            forall|k: int| 0 <= k < i ==> s@[k] != c,
        decreases s@.len() - i,
    {
        if s[i] == c {
            assert(s@[i as int] == c);
            return true;
        }
        i = i + 1;
    }
    false
}

/// The chars of a string slice.
pub fn chars_of(s: &str) -> (v: Vec<char>)
    ensures
        v@ == s@,
{
    let mut v: Vec<char> = Vec::new();
    for c in it: s.chars()
        invariant
            v@ == it.seq().take(it.index() as int),
    {
        v.push(c);
    }
    v
}

/// Appends a char to a string: `String::push`.
#[verifier::external_body]
fn string_push(s: &mut String, c: char)
    ensures
        final(s)@ == old(s)@.push(c),
{
    s.push(c);
}

/// The string made of a range of chars.
pub fn string_from_chars(v: &Vec<char>, start: usize, end: usize) -> (s: String)
    requires
        start <= end <= v@.len(),
    ensures
        s@ == v@.subrange(start as int, end as int),
{
    let mut s = String::new();
    let mut i = start;
    while i < end
        invariant
            start <= i <= end <= v@.len(),
            s@ == v@.subrange(start as int, i as int),
        decreases end - i,
    {
        string_push(&mut s, v[i]);
        assert(v@.subrange(start as int, i + 1) =~= v@.subrange(start as int, i as int).push(
            v@[i as int],
        ));
        i = i + 1;
    }
    s
}

/// A string without its leading and trailing white space.
pub fn trimmed(s: &String) -> (r: String)
    ensures
        r@ == trim(s@),
{
    let chars = chars_of(s.as_str());
    let (a, b) = strip_bounds(&chars, CharClass::Whitespace);
    string_from_chars(&chars, a, b)
}

} // verus!
