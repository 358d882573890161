use vstd::prelude::*;

verus! {

/// Whether `c` belongs to the white-space set that trimming removes
/// (the Unicode `White_Space` characters).
pub open spec fn is_space(c: char) -> bool {
    c == ' ' || c == '\t' || c == '\n' || c == '\u{b}' || c == '\u{c}' || c == '\r'
        || c == '\u{85}' || c == '\u{a0}' || c == '\u{1680}' || c == '\u{2000}'
        || c == '\u{2001}' || c == '\u{2002}' || c == '\u{2003}' || c == '\u{2004}'
        || c == '\u{2005}' || c == '\u{2006}' || c == '\u{2007}' || c == '\u{2008}'
        || c == '\u{2009}' || c == '\u{200a}' || c == '\u{2028}' || c == '\u{2029}'
        || c == '\u{202f}' || c == '\u{205f}' || c == '\u{3000}'
}

/// Executable test for [`is_space`].
pub fn is_space_char(c: char) -> (r: bool)
    ensures
        r == is_space(c),
{
    c == ' ' || c == '\t' || c == '\n' || c == '\u{b}' || c == '\u{c}' || c == '\r'
        || c == '\u{85}' || c == '\u{a0}' || c == '\u{1680}' || c == '\u{2000}'
        || c == '\u{2001}' || c == '\u{2002}' || c == '\u{2003}' || c == '\u{2004}'
        || c == '\u{2005}' || c == '\u{2006}' || c == '\u{2007}' || c == '\u{2008}'
        || c == '\u{2009}' || c == '\u{200a}' || c == '\u{2028}' || c == '\u{2029}'
        || c == '\u{202f}' || c == '\u{205f}' || c == '\u{3000}'
}

/// `s` with its leading white space removed.
pub open spec fn trim_start(s: Seq<char>) -> Seq<char>
    decreases s.len(),
{
    if s.len() > 0 && is_space(s[0]) {
        trim_start(s.drop_first())
    } else {
        s
    }
}

/// `s` with its trailing white space removed.
pub open spec fn trim_end(s: Seq<char>) -> Seq<char>
    decreases s.len(),
{
    if s.len() > 0 && is_space(s.last()) {
        trim_end(s.drop_last())
    } else {
        s
    }
}

/// `s` with both leading and trailing white space removed.
pub open spec fn spec_trim(s: Seq<char>) -> Seq<char> {
    trim_end(trim_start(s))
}

/// The segments of `s` between occurrences of `sep`, in order.
/// A string without the separator is one segment; every separator,
/// including a leading or trailing one, opens a new segment.
pub open spec fn spec_split(s: Seq<char>, sep: char) -> Seq<Seq<char>>
    decreases s.len(),
{
    if s.len() == 0 {
        seq![Seq::<char>::empty()]
    } else if s.last() == sep {
        spec_split(s.drop_last(), sep).push(Seq::<char>::empty())
    } else {
        let parts = spec_split(s.drop_last(), sep);
        parts.update(parts.len() - 1, parts.last().push(s.last()))
    }
}

/// The comma-separated segments of `s`, each trimmed.
pub open spec fn split_trimmed(s: Seq<char>) -> Seq<Seq<char>> {
    spec_split(s, ',').map_values(|p: Seq<char>| spec_trim(p))
}

proof fn lemma_trim_start_skip(s: Seq<char>, i: int)
    requires
        0 <= i <= s.len(),
        forall|k: int| 0 <= k < i ==> is_space(s[k]),
    ensures
        trim_start(s) == trim_start(s.skip(i)),
    decreases i,
{
    if i > 0 {
        assert(s.drop_first() =~= s.skip(1));
        lemma_trim_start_skip(s.drop_first(), i - 1);
        assert(s.drop_first().skip(i - 1) =~= s.skip(i));
    } else {
        assert(s.skip(0) =~= s);
    }
}

proof fn lemma_trim_end_take(s: Seq<char>, i: int)
    requires
        0 <= i <= s.len(),
        forall|k: int| i <= k < s.len() ==> is_space(s[k]),
    ensures
        trim_end(s) == trim_end(s.take(i)),
    decreases s.len() - i,
{
    if i < s.len() {
        assert(is_space(s.last()));
        lemma_trim_end_take(s.drop_last(), i);
        assert(s.drop_last().take(i) =~= s.take(i));
    } else {
        assert(s.take(i) =~= s);
    }
}

/// Removes leading and trailing white space, as [`spec_trim`] describes.
pub fn trim(s: &str) -> (r: String)
    ensures
        r@ == spec_trim(s@),
{
    let n = s.unicode_len();
    let mut start: usize = 0;
    while start < n && is_space_char(s.get_char(start))
        invariant
            0 <= start <= n,
            n == s@.len(),
            forall|k: int| 0 <= k < start ==> is_space(s@[k]),
        decreases n - start,
    {
        start += 1;
    }
    let mut end: usize = n;
    while end > start && is_space_char(s.get_char(end - 1))
        invariant
            start <= end <= n,
            n == s@.len(),
            forall|k: int| end <= k < n ==> is_space(s@[k]),
        decreases end,
    {
        end -= 1;
    }
    proof {
        lemma_trim_start_skip(s@, start as int);
        let t = s@.skip(start as int);
        if start < n {
            assert(t[0] == s@[start as int]);
            assert(!is_space(t[0]));
        }
        assert(trim_start(s@) == t);
        lemma_trim_end_take(t, end - start);
        assert(t.take(end - start) =~= s@.subrange(start as int, end as int));
        let u = t.take(end - start);
        if end > start {
            assert(u.last() == s@[end - 1]);
            assert(!is_space(u.last()));
        }
        assert(trim_end(u) == u);
        assert(spec_trim(s@) == s@.subrange(start as int, end as int));
    }
    s.substring_char(start, end).to_owned()
}

/// Splits `s` on commas and trims each segment, as [`split_trimmed`]
/// describes.
pub fn split_trim_commas(s: &str) -> (r: Vec<String>)
    ensures
        r@.map_values(|x: String| x@) == split_trimmed(s@),
{
    let n = s.unicode_len();
    let mut parts: Vec<String> = Vec::new();
    let mut start: usize = 0;
    let mut i: usize = 0;
    proof {
        assert(s@.take(0) =~= Seq::<char>::empty());
    }
    while i < n
        invariant
            0 <= start <= i <= n,
            n == s@.len(),
            spec_split(s@.take(i as int), ',').len() == parts@.len() + 1,
            spec_split(s@.take(i as int), ',').drop_last().map_values(
                |p: Seq<char>| spec_trim(p),
            ) =~= parts@.map_values(|x: String| x@),
            spec_split(s@.take(i as int), ',').last() == s@.subrange(
                start as int,
                i as int,
            ),
        decreases n - i,
    {
        let ghost old_parts = spec_split(s@.take(i as int), ',');
        proof {
            assert(s@.take(i + 1).drop_last() =~= s@.take(i as int));
            assert(s@.take(i + 1).last() == s@[i as int]);
        }
        if s.get_char(i) == ',' {
            let segment = s.substring_char(start, i);
            let trimmed = trim(segment);
            parts.push(trimmed);
            start = i + 1;
            proof {
                let new_split = spec_split(s@.take(i + 1), ',');
                assert(new_split == old_parts.push(Seq::<char>::empty()));
                assert(new_split.drop_last() =~= old_parts);
                assert(trimmed@ == spec_trim(old_parts.last()));
                assert(parts@.map_values(|x: String| x@) =~= old_parts.drop_last().map_values(
                    |p: Seq<char>| spec_trim(p),
                ).push(spec_trim(old_parts.last())));
                assert(old_parts.map_values(|p: Seq<char>| spec_trim(p))
                    =~= old_parts.drop_last().map_values(|p: Seq<char>| spec_trim(p)).push(
                    spec_trim(old_parts.last()),
                ));
                assert(new_split.drop_last().map_values(|p: Seq<char>| spec_trim(p))
                    =~= parts@.map_values(|x: String| x@));
                assert(new_split.last() =~= s@.subrange(i + 1, i + 1));
            }
        } else {
            proof {
                let new_split = spec_split(s@.take(i + 1), ',');
                assert(new_split == old_parts.update(
                    old_parts.len() - 1,
                    old_parts.last().push(s@[i as int]),
                ));
                assert(new_split.drop_last() =~= old_parts.drop_last());
                assert(new_split.drop_last().map_values(|p: Seq<char>| spec_trim(p))
                    =~= parts@.map_values(|x: String| x@));
                assert(new_split.last() =~= s@.subrange(start as int, i + 1));
            }
        }
        i += 1;
    }
    let segment = s.substring_char(start, n);
    let trimmed = trim(segment);
    parts.push(trimmed);
    proof {
        assert(s@.take(n as int) =~= s@);
        let full = spec_split(s@, ',');
        assert(parts@.map_values(|x: String| x@) =~= full.drop_last().map_values(
            |p: Seq<char>| spec_trim(p),
        ).push(spec_trim(full.last())));
        assert(full.map_values(|p: Seq<char>| spec_trim(p)) =~= full.drop_last().map_values(
            |p: Seq<char>| spec_trim(p),
        ).push(spec_trim(full.last())));
    }
    parts
}

} // verus!
