//! Character-level string operations with their mathematical meaning.
use vstd::prelude::*;

verus! {

/// Unicode `White_Space` code points: the characters that `char::is_whitespace`
/// and `str::trim` treat as whitespace.
pub open spec fn is_white_space(c: char) -> bool {
    let n = c as u32;
    ||| 0x09 <= n <= 0x0D
    ||| n == 0x20
    ||| n == 0x85
    ||| n == 0xA0
    ||| n == 0x1680
    ||| 0x2000 <= n <= 0x200A
    ||| n == 0x2028
    ||| n == 0x2029
    ||| n == 0x202F
    ||| n == 0x205F
    ||| n == 0x3000
}

/// `s` without its leading white space.
pub open spec fn trim_front(s: Seq<char>) -> Seq<char>
    decreases s.len(),
{
    if s.len() > 0 && is_white_space(s[0]) {
        trim_front(s.drop_first())
    } else {
        s
    }
}

/// `s` without its trailing white space.
pub open spec fn trim_back(s: Seq<char>) -> Seq<char>
    decreases s.len(),
{
    if s.len() > 0 && is_white_space(s.last()) {
        trim_back(s.drop_last())
    } else {
        s
    }
}

/// `s` without leading and trailing white space.
pub open spec fn trimmed(s: Seq<char>) -> Seq<char> {
    trim_back(trim_front(s))
}

proof fn lemma_trim_front_start(s: Seq<char>)
    ensures
        trim_front(s).len() > 0 ==> !is_white_space(trim_front(s)[0]),
    decreases s.len(),
{
    if s.len() > 0 && is_white_space(s[0]) {
        lemma_trim_front_start(s.drop_first());
    }
}

proof fn lemma_trim_back_prefix(s: Seq<char>)
    ensures
        trim_back(s).len() <= s.len(),
        trim_back(s) == s.take(trim_back(s).len() as int),
        trim_back(s).len() > 0 ==> !is_white_space(trim_back(s).last()),
    decreases s.len(),
{
    if s.len() > 0 && is_white_space(s.last()) {
        lemma_trim_back_prefix(s.drop_last());
        let t = trim_back(s.drop_last());
        assert(s.drop_last().take(t.len() as int) =~= s.take(t.len() as int));
    } else {
        assert(s.take(s.len() as int) =~= s);
    }
}

/// A trimmed text neither starts nor ends with white space.
pub proof fn lemma_trimmed_has_no_outer_white_space(s: Seq<char>)
    ensures
        trimmed(s).len() > 0 ==> !is_white_space(trimmed(s)[0]) && !is_white_space(trimmed(s).last()),
{
    lemma_trim_front_start(s);
    lemma_trim_back_prefix(trim_front(s));
    if trimmed(s).len() > 0 {
        assert(trimmed(s)[0] == trim_front(s)[0]);
    }
}

proof fn lemma_trim_front_cut(s: Seq<char>)
    ensures
        trim_front(s).len() <= s.len(),
        trim_front(s) == s.skip(s.len() - trim_front(s).len()),
        forall|k: int| 0 <= k < s.len() - trim_front(s).len() ==> is_white_space(#[trigger] s[k]),
    decreases s.len(),
{
    if s.len() > 0 && is_white_space(s[0]) {
        lemma_trim_front_cut(s.drop_first());
        let t = trim_front(s.drop_first());
        assert(s.drop_first().skip(s.drop_first().len() - t.len()) =~= s.skip(s.len() - t.len()));
        assert forall|k: int| 0 <= k < s.len() - t.len() implies is_white_space(#[trigger] s[k]) by {
            if k > 0 {
                assert(s[k] == s.drop_first()[k - 1]);
            }
        }
    } else {
        assert(s.skip(0) =~= s);
    }
}

proof fn lemma_trim_back_cut(s: Seq<char>)
    ensures
        forall|k: int| trim_back(s).len() <= k < s.len() ==> is_white_space(#[trigger] s[k]),
    decreases s.len(),
{
    lemma_trim_back_prefix(s);
    if s.len() > 0 && is_white_space(s.last()) {
        lemma_trim_back_cut(s.drop_last());
        assert forall|k: int| trim_back(s).len() <= k < s.len() implies is_white_space(#[trigger] s[k]) by {
            if k < s.len() - 1 {
                assert(s[k] == s.drop_last()[k]);
            }
        }
    }
}

/// Trimming cuts white space only, from the two ends: the trimmed text is a
/// run of `s` such that everything before and after it is white space; and it
/// neither starts nor ends with white space.
pub proof fn lemma_trimmed_cuts_only_white_space(s: Seq<char>)
    ensures
        exists|i: int, j: int|
            0 <= i <= j <= s.len() && trimmed(s) == s.subrange(i, j) && (forall|k: int|
                0 <= k < i ==> is_white_space(#[trigger] s[k])) && (forall|k: int|
                j <= k < s.len() ==> is_white_space(#[trigger] s[k])),
        trimmed(s).len() > 0 ==> !is_white_space(trimmed(s)[0]) && !is_white_space(trimmed(s).last()),
{
    lemma_trimmed_has_no_outer_white_space(s);
    lemma_trim_front_cut(s);
    let f = trim_front(s);
    let i = s.len() - f.len();
    lemma_trim_back_prefix(f);
    lemma_trim_back_cut(f);
    let j = i + trim_back(f).len();
    assert(trimmed(s) =~= s.subrange(i, j));
    assert forall|k: int| j <= k < s.len() implies is_white_space(#[trigger] s[k]) by {
        assert(s[k] == f[k - i]);
    }
}

/// Indenting works character by character: the indented text of two runs is
/// the first's followed by the second's, a line break becomes a line break
/// and two spaces, and any other character stays.
pub proof fn lemma_indented_concat(a: Seq<char>, b: Seq<char>, c: char)
    ensures
        indented(a + b) == indented(a) + indented(b),
        indented(seq![c]) == if c == '\n' {
            seq!['\n', ' ', ' ']
        } else {
            seq![c]
        },
    decreases b.len(),
{
    assert(seq![c].drop_last() =~= Seq::<char>::empty());
    assert(indented(Seq::<char>::empty()) == Seq::<char>::empty());
    assert(Seq::<char>::empty() + seq!['\n', ' ', ' '] =~= seq!['\n', ' ', ' ']);
    assert(Seq::<char>::empty() + seq![c] =~= seq![c]);
    if b.len() == 0 {
        assert(a + b =~= a);
        assert(indented(a) + Seq::<char>::empty() =~= indented(a));
    } else {
        lemma_indented_concat(a, b.drop_last(), c);
        assert((a + b).drop_last() =~= a + b.drop_last());
        assert((a + b).last() == b.last());
        let piece = if b.last() == '\n' {
            seq!['\n', ' ', ' ']
        } else {
            seq![b.last()]
        };
        assert(indented(a) + indented(b) =~= indented(a) + indented(b.drop_last()) + piece);
    }
}

/// Joining: no parts give nothing, one part gives that part, and one more
/// part adds the separator and that part.
pub proof fn lemma_joined_push(parts: Seq<Seq<char>>, sep: Seq<char>, p: Seq<char>)
    ensures
        joined(Seq::empty(), sep) == Seq::<char>::empty(),
        joined(seq![p], sep) == p,
        parts.len() > 0 ==> joined(parts.push(p), sep) == joined(parts, sep) + sep + p,
{
    assert(parts.push(p).drop_last() =~= parts);
}

/// The parts joined by `sep`, as `[T]::join` does.
pub open spec fn joined(parts: Seq<Seq<char>>, sep: Seq<char>) -> Seq<char>
    decreases parts.len(),
{
    if parts.len() == 0 {
        Seq::empty()
    } else if parts.len() == 1 {
        parts[0]
    } else {
        joined(parts.drop_last(), sep) + sep + parts.last()
    }
}

/// `s` with every line break followed by two spaces.
pub open spec fn indented(s: Seq<char>) -> Seq<char>
    decreases s.len(),
{
    if s.len() == 0 {
        Seq::empty()
    } else {
        indented(s.drop_last()) + (if s.last() == '\n' {
            seq!['\n', ' ', ' ']
        } else {
            seq![s.last()]
        })
    }
}

/// The number of line breaks in `s`.
pub open spec fn line_breaks(s: Seq<char>) -> nat
    decreases s.len(),
{
    if s.len() == 0 {
        0
    } else {
        line_breaks(s.drop_last()) + if s.last() == '\n' {
            1nat
        } else {
            0nat
        }
    }
}

/// Whether every line break in `s` is followed by two spaces.
pub open spec fn breaks_indented(s: Seq<char>) -> bool {
    forall|k: int|
        0 <= k < s.len() && #[trigger] s[k] == '\n' ==> k + 2 < s.len() && s[k + 1] == ' ' && s[k
            + 2] == ' '
}

/// Line breaks add up over a concatenation.
pub proof fn lemma_line_breaks_concat(a: Seq<char>, b: Seq<char>)
    ensures
        line_breaks(a + b) == line_breaks(a) + line_breaks(b),
    decreases b.len(),
{
    if b.len() == 0 {
        assert(a + b =~= a);
    } else {
        lemma_line_breaks_concat(a, b.drop_last());
        assert((a + b).drop_last() =~= a + b.drop_last());
        assert((a + b).last() == b.last());
    }
}

/// Text without a line break has none to count and none to indent.
pub proof fn lemma_no_line_breaks(s: Seq<char>)
    requires
        !s.contains('\n'),
    ensures
        line_breaks(s) == 0,
        breaks_indented(s),
    decreases s.len(),
{
    if s.len() > 0 {
        assert(!s.drop_last().contains('\n')) by {
            if s.drop_last().contains('\n') {
                let k = choose|k: int| 0 <= k < s.drop_last().len() && s.drop_last()[k] == '\n';
                assert(s[k] == '\n');
            }
        }
        lemma_no_line_breaks(s.drop_last());
        assert(s[s.len() - 1] != '\n');
    }
}

/// Indented text stays indented after more indented text is appended.
pub proof fn lemma_breaks_indented_concat(a: Seq<char>, b: Seq<char>)
    requires
        breaks_indented(a),
        breaks_indented(b),
    ensures
        breaks_indented(a + b),
{
    assert forall|k: int| 0 <= k < (a + b).len() && #[trigger] (a + b)[k] == '\n' implies k + 2 < (a
        + b).len() && (a + b)[k + 1] == ' ' && (a + b)[k + 2] == ' ' by {
        if k < a.len() {
            assert(a[k] == '\n');
        } else {
            assert(b[k - a.len()] == '\n');
        }
    }
}

/// Indenting keeps the number of line breaks and puts two spaces after each.
pub proof fn lemma_indented_lines(s: Seq<char>)
    ensures
        breaks_indented(indented(s)),
        line_breaks(indented(s)) == line_breaks(s),
    decreases s.len(),
{
    if s.len() > 0 {
        lemma_indented_lines(s.drop_last());
        let piece = if s.last() == '\n' {
            seq!['\n', ' ', ' ']
        } else {
            seq![s.last()]
        };
        assert(indented(s) == indented(s.drop_last()) + piece);
        assert(breaks_indented(piece));
        assert(seq!['\n', ' ', ' '].drop_last() =~= seq!['\n', ' ']);
        assert(seq!['\n', ' '].drop_last() =~= seq!['\n']);
        assert(seq!['\n'].drop_last() =~= Seq::<char>::empty());
        assert(seq![s.last()].drop_last() =~= Seq::<char>::empty());
        assert(line_breaks(piece) == if s.last() == '\n' { 1nat } else { 0nat }) by {
            reveal_with_fuel(line_breaks, 4);
        }
        lemma_breaks_indented_concat(indented(s.drop_last()), piece);
        lemma_line_breaks_concat(indented(s.drop_last()), piece);
    }
}

/// `s` with every `from` replaced by `to`.
pub open spec fn replaced_char(s: Seq<char>, from: char, to: char) -> Seq<char> {
    s.map_values(|c: char| if c == from { to } else { c })
}

/// Replacing a character keeps the length, turns each `from` into `to` and
/// leaves every other character in place.
pub proof fn lemma_replaced_char(s: Seq<char>, from: char, to: char)
    ensures
        replaced_char(s, from, to).len() == s.len(),
        forall|k: int| 0 <= k < s.len() ==> #[trigger] replaced_char(s, from, to)[k] == if s[k] == from {
            to
        } else {
            s[k]
        },
{
}

/// The views of a sequence of strings.
pub open spec fn strings_view(v: Seq<String>) -> Seq<Seq<char>> {
    v.map_values(|s: String| s@)
}

/// The characters of `s`, in order (`str::chars`).
#[verifier::external_body]
pub(crate) fn chars_of(s: &str) -> (v: Vec<char>)
    ensures
        v@ == s@,
{
    s.chars().collect()
}

/// Appends one character (`String::push`).
#[verifier::external_body]
pub(crate) fn push_char(s: &mut String, c: char)
    ensures
        final(s)@ == old(s)@.push(c),
{
    s.push(c)
}

/// Whether `c` is Unicode white space, as `char::is_whitespace` decides.
pub fn is_white_space_char(c: char) -> (b: bool)
    ensures
        b == is_white_space(c),
{
    let n: u32 = c as u32;
    (0x09 <= n && n <= 0x0D) || n == 0x20 || n == 0x85 || n == 0xA0 || n == 0x1680 || (0x2000
        <= n && n <= 0x200A) || n == 0x2028 || n == 0x2029 || n == 0x202F || n == 0x205F || n
        == 0x3000
}

proof fn lemma_trim_front_skip(s: Seq<char>, i: int)
    requires
        0 <= i <= s.len(),
        forall|j: int| 0 <= j < i ==> is_white_space(#[trigger] s[j]),
    ensures
        trim_front(s) == trim_front(s.skip(i)),
    decreases i,
{
    if i > 0 {
        assert(s.drop_first().skip(i - 1) =~= s.skip(i));
        lemma_trim_front_skip(s.drop_first(), i - 1);
    } else {
        assert(s.skip(0) =~= s);
    }
}

proof fn lemma_trim_back_take(s: Seq<char>, k: int)
    requires
        0 <= k <= s.len(),
        forall|j: int| k <= j < s.len() ==> is_white_space(#[trigger] s[j]),
    ensures
        trim_back(s) == trim_back(s.take(k)),
    decreases s.len() - k,
{
    if k < s.len() {
        assert(s.drop_last().take(k) =~= s.take(k));
        lemma_trim_back_take(s.drop_last(), k);
    } else {
        assert(s.take(k) =~= s);
    }
}

/// A string made of the given characters.
pub fn string_of_chars(v: &Vec<char>, from: usize, to: usize) -> (s: String)
    requires
        from <= to <= v@.len(),
    ensures
        s@ == v@.subrange(from as int, to as int),
{
    let mut s = String::new();
    let mut i = from;
    while i < to
        invariant
            from <= i <= to <= v@.len(),
            s@ == v@.subrange(from as int, i as int),
        decreases to - i,
    {
        push_char(&mut s, v[i]);
        assert(v@.subrange(from as int, i + 1) =~= v@.subrange(from as int, i as int).push(v@[i as int]));
        i = i + 1;
    }
    s
}

/// `str::trim`: the string without leading and trailing white space.
pub fn trim_string(s: &str) -> (r: String)
    ensures
        r@ == trimmed(s@),
{
    let v = chars_of(s);
    let n = v.len();
    let mut start: usize = 0;
    while start < n && is_white_space_char(v[start])
        invariant
            start <= n == v@.len(),
            forall|j: int| 0 <= j < start ==> is_white_space(#[trigger] v@[j]),
        decreases n - start,
    {
        start = start + 1;
    }
    proof {
        lemma_trim_front_skip(v@, start as int);
        if start < n {
            assert(!is_white_space(v@.skip(start as int)[0]));
        }
        assert(trim_front(v@) == v@.skip(start as int));
    }
    let mut end: usize = n;
    while end > start && is_white_space_char(v[end - 1])
        invariant
            start <= end <= n == v@.len(),
            forall|j: int| end <= j < n ==> is_white_space(#[trigger] v@[j]),
        decreases end,
    {
        end = end - 1;
    }
    proof {
        let f = v@.skip(start as int);
        assert forall|j: int| (end - start) <= j < f.len() implies is_white_space(#[trigger] f[j]) by {
            assert(f[j] == v@[j + start]);
        }
        lemma_trim_back_take(f, end - start);
        assert(f.take(end - start) =~= v@.subrange(start as int, end as int));
        let t = f.take(end - start);
        if t.len() > 0 {
            assert(t.last() == v@[end - 1]);
        }
        assert(trim_back(t) == t);
    }
    string_of_chars(&v, start, end)
}

/// `[String]::join`: the parts separated by `sep`.
pub fn join_strings(parts: &Vec<String>, sep: &str) -> (r: String)
    ensures
        r@ == joined(strings_view(parts@), sep@),
{
    let mut r = String::new();
    let ghost pv = strings_view(parts@);
    let mut i: usize = 0;
    while i < parts.len()
        invariant
            i <= parts@.len(),
            pv == strings_view(parts@),
            r@ == joined(pv.take(i as int), sep@),
        decreases parts@.len() - i,
    {
        if i > 0 {
            r.append(sep);
        }
        r.append(parts[i].as_str());
        proof {
            let t = pv.take(i + 1);
            assert(t.drop_last() =~= pv.take(i as int));
            if i == 0 {
                assert(pv.take(0) =~= Seq::<Seq<char>>::empty());
            }
        }
        i = i + 1;
    }
    assert(pv.take(parts@.len() as int) =~= pv);
    r
}

/// `str::replace('\n', "\n  ")`: every line break followed by two spaces.
pub fn indent_string(s: &str) -> (r: String)
    ensures
        r@ == indented(s@),
{
    let v = chars_of(s);
    let mut r = String::new();
    let mut i: usize = 0;
    while i < v.len()
        invariant
            i <= v@.len(),
            v@ == s@,
            r@ == indented(v@.take(i as int)),
        decreases v@.len() - i,
    {
        let c = v[i];
        if c == '\n' {
            push_char(&mut r, '\n');
            push_char(&mut r, ' ');
            push_char(&mut r, ' ');
        } else {
            push_char(&mut r, c);
        }
        assert(v@.take(i + 1).drop_last() =~= v@.take(i as int));
        i = i + 1;
    }
    assert(v@.take(v@.len() as int) =~= v@);
    r
}

/// `str::replace(from, to)` for one character replaced by one character.
pub fn replace_char(s: &str, from: char, to: char) -> (r: String)
    ensures
        r@ == replaced_char(s@, from, to),
{
    let v = chars_of(s);
    let mut r = String::new();
    let mut i: usize = 0;
    while i < v.len()
        invariant
            i <= v@.len(),
            v@ == s@,
            r@ == replaced_char(v@.take(i as int), from, to),
        decreases v@.len() - i,
    {
        let c = v[i];
        if c == from {
            push_char(&mut r, to);
        } else {
            push_char(&mut r, c);
        }
        assert(replaced_char(v@.take(i + 1), from, to) =~= replaced_char(v@.take(i as int), from, to).push(
            if c == from { to } else { c },
        ));
        i = i + 1;
    }
    assert(v@.take(v@.len() as int) =~= v@);
    r
}

/// `str::starts_with` for a string prefix.
pub fn starts_with(s: &str, prefix: &str) -> (b: bool)
    ensures
        b == prefix@.is_prefix_of(s@),
{
    let sv = chars_of(s);
    let pv = chars_of(prefix);
    if pv.len() > sv.len() {
        return false;
    }
    let mut i: usize = 0;
    while i < pv.len()
        invariant
            i <= pv@.len() <= sv@.len(),
            sv@ == s@,
            pv@ == prefix@,
            forall|j: int| 0 <= j < i ==> pv@[j] == sv@[j],
        decreases pv@.len() - i,
    {
        if pv[i] != sv[i] {
            return false;
        }
        i = i + 1;
    }
    true
}

/// Whether two strings are equal.
pub fn str_equal(a: &str, b: &str) -> (r: bool)
    ensures
        r == (a@ == b@),
{
    let same = starts_with(a, b) && a.unicode_len() == b.unicode_len();
    proof {
        if same {
            assert(a@ =~= b@);
        }
    }
    same
}

/// `str::strip_prefix`: the rest of `s` after `prefix`, where `s` starts with it.
pub fn strip_prefix(s: &str, prefix: &str) -> (r: Option<String>)
    ensures
        prefix@.is_prefix_of(s@) ==> (r matches Some(t) && t@ == s@.skip(prefix@.len() as int)),
        !prefix@.is_prefix_of(s@) ==> r is None,
{
    if starts_with(s, prefix) {
        let v = chars_of(s);
        let p = prefix.unicode_len();
        Some(string_of_chars(&v, p, v.len()))
    } else {
        None
    }
}

} // verus!
