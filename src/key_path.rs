use vstd::prelude::*;

use crate::error::DocError;

verus! {

/// The character that separates the segments of a key path.
pub const SEPARATOR: char = '.';

/// Segments joined back together with the separator between them.
pub open spec fn join_segments(segs: Seq<Seq<char>>) -> Seq<char>
    decreases segs.len(),
{
    if segs.len() == 0 {
        Seq::empty()
    } else if segs.len() == 1 {
        segs[0]
    } else {
        join_segments(segs.drop_last()) + seq![SEPARATOR] + segs.last()
    }
}

/// A text that splits into segments of which none is empty.
pub open spec fn is_valid_key_text(s: Seq<char>) -> bool {
    &&& s.len() > 0
    &&& s[0] != SEPARATOR
    &&& s.last() != SEPARATOR
    &&& forall|i: int| 0 <= i < s.len() - 1 && #[trigger] s[i] == SEPARATOR ==> s[i + 1] != SEPARATOR
}

/// A well-formed key path: at least one segment, none empty, none holding the separator.
pub open spec fn is_key_path(p: Seq<Seq<char>>) -> bool {
    &&& p.len() > 0
    &&& forall|i: int| 0 <= i < p.len() ==> #[trigger] p[i].len() > 0
    &&& forall|i: int, j: int| 0 <= i < p.len() && 0 <= j < p[i].len() ==> p[i][j] != SEPARATOR
}

/// The segments of a vector of strings, as character sequences.
pub open spec fn segments_view(v: Seq<String>) -> Seq<Seq<char>> {
    v.map_values(|s: String| s@)
}

proof fn lemma_join_push(segs: Seq<Seq<char>>, last: Seq<char>)
    requires
        segs.len() > 0,
    ensures
        join_segments(segs.push(last)) == join_segments(segs) + seq![SEPARATOR] + last,
{
    assert(segs.push(last).drop_last() =~= segs);
}

/// Splits `s` at each separator. Fails with `InvalidKeyPath` exactly when a
/// segment would be empty (an empty text, a leading or trailing separator, or
/// two separators in a row); otherwise the segments joined by the separator
/// give back `s`.
pub fn parse_key_path(s: &str) -> (r: Result<Vec<String>, DocError>)
    ensures
        r is Err <==> !is_valid_key_text(s@),
        r is Err ==> r == Err::<Vec<String>, DocError>(DocError::InvalidKeyPath),
        r matches Ok(p) ==> is_key_path(segments_view(p@)) && join_segments(segments_view(p@))
            == s@,
{
    let n = s.unicode_len();
    let mut segs: Vec<String> = Vec::new();
    let mut start: usize = 0;
    let mut i: usize = 0;
    while i < n
        invariant
            n == s@.len(),
            start <= i <= n,
            start == 0 <==> segs.len() == 0,
            start > 0 ==> s@[start - 1] == SEPARATOR,
            segs.len() > 0 ==> join_segments(segments_view(segs@)) + seq![SEPARATOR]
                == s@.subrange(0, start as int),
            forall|j: int| start <= j < i ==> s@[j] != SEPARATOR,
            forall|k: int| 0 <= k < segs.len() ==> #[trigger] segs@[k]@.len() > 0,
            forall|k: int, j: int|
                0 <= k < segs.len() && 0 <= j < segs@[k]@.len() ==> segs@[k]@[j] != SEPARATOR,
            start > 0 ==> s@[0] != SEPARATOR,
            forall|j: int| 0 <= j < start - 1 && #[trigger] s@[j] == SEPARATOR ==> s@[j + 1] != SEPARATOR,
        decreases n - i,
    {
        let c = s.get_char(i);
        if c == SEPARATOR {
            if i == start {
                return Err(DocError::InvalidKeyPath);
            }
            let seg = s.substring_char(start, i).to_string();
            let ghost old_segs = segments_view(segs@);
            segs.push(seg);
            proof {
                let sv = segments_view(segs@);
                assert(sv =~= old_segs.push(s@.subrange(start as int, i as int)));
                if old_segs.len() > 0 {
                    lemma_join_push(old_segs, s@.subrange(start as int, i as int));
                    assert(s@.subrange(0, i as int + 1) =~= s@.subrange(0, start as int)
                        + s@.subrange(start as int, i as int) + seq![SEPARATOR]);
                } else {
                    assert(s@.subrange(0, i as int + 1) =~= s@.subrange(start as int, i as int)
                        + seq![SEPARATOR]);
                }
            }
            start = i + 1;
        }
        i = i + 1;
    }
    if start == n {
        return Err(DocError::InvalidKeyPath);
    }
    let seg = s.substring_char(start, n).to_string();
    let ghost old_segs = segments_view(segs@);
    segs.push(seg);
    proof {
        let sv = segments_view(segs@);
        assert(sv =~= old_segs.push(s@.subrange(start as int, n as int)));
        if old_segs.len() > 0 {
            lemma_join_push(old_segs, s@.subrange(start as int, n as int));
        }
        assert(s@ =~= s@.subrange(0, start as int) + s@.subrange(start as int, n as int));
    }
    Ok(segs)
}

} // verus!
