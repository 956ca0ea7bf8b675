//! The text format: one pair per line, `KEY=VALUE` or `KEY=V1;V2;...;`.

use crate::text::{join, lemma_join_split, lemma_split_nonempty, lemma_split_single, split, split_text};
use crate::{HashView, ParseError};
use vstd::prelude::*;

verus! {

/// The pair that one line stands for, if the line holds an `=`. The key is the
/// text before the first `=`, the value the text up to the next one; a value
/// that holds a `;` is a list of the pieces between its `;`s.
pub open spec fn parse_line(line: Seq<char>) -> Option<HashView> {
    let parts = split(line, '=');
    if parts.len() < 2 {
        None
    } else if parts[1].contains(';') {
        Some(HashView::Vec(parts[0], split(parts[1], ';')))
    } else {
        Some(HashView::Str(parts[0], parts[1]))
    }
}

/// The pairs of the lines in order, or the index of the first line that holds
/// no `=`.
pub open spec fn parse_lines(lines: Seq<Seq<char>>) -> Result<Seq<HashView>, int>
    decreases lines.len(),
{
    if lines.len() == 0 {
        Ok(Seq::<HashView>::empty())
    } else {
        match parse_lines(lines.drop_last()) {
            Err(i) => Err(i),
            Ok(es) => match parse_line(lines.last()) {
                None => Err(lines.len() - 1),
                Some(e) => Ok(es.push(e)),
            },
        }
    }
}

/// What a whole text parses to: every line, blank ones included, is a pair.
pub open spec fn parse_text(s: Seq<char>) -> Result<Seq<HashView>, int> {
    parse_lines(split(s, '\n'))
}

/// Each value followed by a `;`.
pub open spec fn values_text(vs: Seq<Seq<char>>) -> Seq<char>
    decreases vs.len(),
{
    if vs.len() == 0 {
        Seq::<char>::empty()
    } else {
        values_text(vs.drop_last()) + vs.last() + seq![';']
    }
}

/// A list's value text: each value followed by a `;`, and a lone `;` for a
/// list with no values, so that a list's text always ends with a `;`.
pub open spec fn list_text(vs: Seq<Seq<char>>) -> Seq<char> {
    if vs.len() == 0 {
        seq![';']
    } else {
        values_text(vs)
    }
}

/// One pair as `KEY=VALUE`; a placeholder is a bare `=`.
pub open spec fn entry_text(e: HashView) -> Seq<char> {
    match e {
        HashView::Str(k, v) => k + seq!['='] + v,
        HashView::Vec(k, vs) => k + seq!['='] + list_text(vs),
        HashView::Placeholder => seq!['='],
    }
}

/// The pairs' texts laid end to end, with nothing between them.
pub open spec fn marshal_text(es: Seq<HashView>) -> Seq<char>
    decreases es.len(),
{
    if es.len() == 0 {
        Seq::<char>::empty()
    } else {
        marshal_text(es.drop_last()) + entry_text(es.last())
    }
}

/// One pair as a file written in one go holds it: a single value ends its
/// line, a list does not, and a placeholder is left out.
pub open spec fn upload_entry_text(e: HashView) -> Seq<char> {
    match e {
        HashView::Str(k, v) => k + seq!['='] + v + seq!['\n'],
        HashView::Vec(k, vs) => k + seq!['='] + list_text(vs),
        HashView::Placeholder => Seq::<char>::empty(),
    }
}

/// The text of a file written in one go from the pairs.
pub open spec fn upload_text(es: Seq<HashView>) -> Seq<char>
    decreases es.len(),
{
    if es.len() == 0 {
        Seq::<char>::empty()
    } else {
        upload_text(es.drop_last()) + upload_entry_text(es.last())
    }
}

/// A line that fails to parse fails every longer run of lines that begins
/// with it, at the same index.
proof fn lemma_parse_lines_err_extends(lines: Seq<Seq<char>>, n: int)
    requires
        0 <= n <= lines.len(),
        parse_lines(lines.take(n)) is Err,
    ensures
        parse_lines(lines) == parse_lines(lines.take(n)),
    decreases lines.len() - n,
{
    if n < lines.len() {
        let t = lines.take(n + 1);
        assert(t.drop_last() =~= lines.take(n));
        lemma_parse_lines_err_extends(lines, n + 1);
    } else {
        assert(lines.take(n) =~= lines);
    }
}

/// The pair that one line stands for, or `None` where it holds no `=`.
fn parse_one(line: &str) -> (r: Option<crate::Hash>)
    ensures
        match r {
            Some(h) => parse_line(line@) == Some(h@),
            None => parse_line(line@) is None,
        },
{
    let parts = split_text(line, '=');
    if parts.len() < 2 {
        return None;
    }
    let values = split_text(parts[1].as_str(), ';');
    proof {
        lemma_split_single(parts[1]@, ';');
        lemma_split_nonempty(parts[1]@, ';');
        assert(values.deep_view().len() == values@.len());
        assert(parts.deep_view()[1] == parts[1]@);
        assert(parts.deep_view()[0] == parts[0]@);
    }
    if values.len() > 1 {
        Some(crate::Hash::Vec(parts[0].clone(), values))
    } else {
        Some(crate::Hash::Str(parts[0].clone(), parts[1].clone()))
    }
}

/// Appends each value followed by a `;`, or a lone `;` where there are none.
pub(crate) fn push_list(out: &mut String, vs: &Vec<String>)
    ensures
        final(out)@ == old(out)@ + list_text(vs.deep_view()),
{
    let ghost start = out@;
    let mut j: usize = 0;
    proof {
        reveal_strlit(";");
        assert(vs.deep_view().take(0) =~= Seq::<Seq<char>>::empty());
        assert(out@ =~= start + values_text(vs.deep_view().take(0)));
    }
    while j < vs.len()
        invariant
            j <= vs.len(),
            out@ == start + values_text(vs.deep_view().take(j as int)),
            ";"@ == seq![';'],
        decreases vs.len() - j,
    {
        out.append(vs[j].as_str());
        out.append(";");
        proof {
            let t = vs.deep_view().take(j + 1);
            assert(t.drop_last() =~= vs.deep_view().take(j as int));
            assert(t.last() == vs[j as int]@);
        }
        j = j + 1;
        assert(out@ =~= start + values_text(vs.deep_view().take(j as int)));
    }
    assert(vs.deep_view().take(j as int) =~= vs.deep_view());
    if vs.len() == 0 {
        out.append(";");
        assert(out@ =~= start + seq![';']);
    }
}

/// A line with exactly one `=` and no `;` after it: a single-valued pair.
pub open spec fn plain_pair_line(line: Seq<char>) -> bool {
    split(line, '=').len() == 2 && !split(line, '=')[1].contains(';')
}

/// Lines that all parse give their pairs in order.
proof fn lemma_parse_lines_all(lines: Seq<Seq<char>>)
    requires
        forall|i: int| 0 <= i < lines.len() ==> (#[trigger] parse_line(lines[i])) is Some,
    ensures
        parse_lines(lines) == Ok::<Seq<HashView>, int>(
            Seq::new(lines.len(), |i: int| parse_line(lines[i])->Some_0),
        ),
    decreases lines.len(),
{
    if lines.len() > 0 {
        let init = lines.drop_last();
        assert forall|i: int| 0 <= i < init.len() implies (#[trigger] parse_line(init[i])) is Some by {
            assert(init[i] == lines[i]);
        }
        lemma_parse_lines_all(init);
        assert(parse_line(lines.last()) is Some) by {
            assert(lines.last() == lines[lines.len() - 1]);
        }
        assert(Seq::new(init.len(), |i: int| parse_line(init[i])->Some_0).push(
            parse_line(lines.last())->Some_0,
        ) =~= Seq::new(lines.len(), |i: int| parse_line(lines[i])->Some_0));
    } else {
        assert(Seq::new(lines.len(), |i: int| parse_line(lines[i])->Some_0) =~= Seq::<HashView>::empty());
    }
}

/// The pairs' texts laid end to end are one pair's text when there is one.
proof fn lemma_marshal_one(e: HashView)
    ensures
        marshal_text(seq![e]) == entry_text(e),
{
    let one = seq![e];
    assert(one.drop_last() =~= Seq::<HashView>::empty());
    assert(one.last() == e);
    assert(marshal_text(one.drop_last()) == Seq::<char>::empty());
    assert(Seq::<char>::empty() + entry_text(e) =~= entry_text(e));
}

/// Parsing a text of single-valued lines, then writing each pair back with
/// `marshal` and joining the results with line ends, gives the text again.
/// (A list line does not come back as it was: `marshal` ends every list with
/// a `;`, so `IP=127;0;0;1` comes back as `IP=127;0;0;1;`.)
pub proof fn lemma_round_trip(s: Seq<char>)
    requires
        forall|i: int|
            0 <= i < split(s, '\n').len() ==> plain_pair_line(#[trigger] split(s, '\n')[i]),
    ensures
        parse_text(s) is Ok,
        join(
            parse_text(s)->Ok_0.map_values(|e: HashView| marshal_text(seq![e])),
            '\n',
        ) == s,
{
    let lines = split(s, '\n');
    assert forall|i: int| 0 <= i < lines.len() implies {
        &&& (#[trigger] parse_line(lines[i])) is Some
        &&& marshal_text(seq![parse_line(lines[i])->Some_0]) == lines[i]
    } by {
        let l = lines[i];
        assert(plain_pair_line(l));
        let parts = split(l, '=');
        lemma_join_split(l, '=');
        assert(parts.drop_last() =~= seq![parts[0]]);
        assert(join(parts, '=') == join(parts.drop_last(), '=') + seq!['='] + parts.last());
        lemma_marshal_one(parse_line(l)->Some_0);
    }
    lemma_parse_lines_all(lines);
    let es = parse_text(s)->Ok_0;
    let back = es.map_values(|e: HashView| marshal_text(seq![e]));
    assert(back =~= lines);
    lemma_join_split(s, '\n');
}

/// The text of a list ends with a `;`, whatever its values, none included.
pub proof fn lemma_list_ends_with_semicolon(k: Seq<char>, vs: Seq<Seq<char>>)
    ensures
        marshal_text(seq![HashView::Vec(k, vs)]).last() == ';',
{
    lemma_marshal_one(HashView::Vec(k, vs));
    let t = list_text(vs);
    if vs.len() > 0 {
        assert(t == values_text(vs.drop_last()) + vs.last() + seq![';']);
    }
    assert(t.last() == ';');
    assert((k + seq!['='] + t).last() == t.last());
}

impl crate::store::Env {
    /// Parses a whole text, one pair per line. Fails, keeping nothing, on the
    /// first line that holds no `=`; a blank line is such a line.
    pub fn parse(content: &str) -> (r: Result<Vec<crate::Hash>, ParseError>)
        ensures
            match r {
                Ok(v) => parse_text(content@) == Ok::<Seq<HashView>, int>(v.deep_view()),
                Err(ParseError::MalformedLine(i)) => parse_text(content@) == Err::<Seq<HashView>, int>(i as int),
            },
    {
        let lines = split_text(content, '\n');
        let mut res: Vec<crate::Hash> = Vec::new();
        let mut i: usize = 0;
        assert(lines.deep_view().take(0) =~= Seq::<Seq<char>>::empty());
        assert(res.deep_view() =~= Seq::<HashView>::empty());
        while i < lines.len()
            invariant
                i <= lines.len(),
                lines.deep_view() == split(content@, '\n'),
                parse_lines(lines.deep_view().take(i as int)) == Ok::<Seq<HashView>, int>(res.deep_view()),
            decreases lines.len() - i,
        {
            let ghost t = lines.deep_view().take(i + 1);
            assert(t.drop_last() =~= lines.deep_view().take(i as int));
            assert(t.last() == lines[i as int]@);
            match parse_one(lines[i].as_str()) {
                None => {
                    proof {
                        lemma_parse_lines_err_extends(lines.deep_view(), i + 1);
                    }
                    return Err(ParseError::MalformedLine(i));
                }
                Some(h) => {
                    let ghost prev = res.deep_view();
                    res.push(h);
                    assert(res.deep_view() =~= prev.push(h@));
                }
            }
            i = i + 1;
        }
        assert(lines.deep_view().take(i as int) =~= lines.deep_view());
        Ok(res)
    }

    /// Each pair as `KEY=VALUE`, laid end to end with no separator.
    pub fn marshal(val: Vec<crate::Hash>) -> (r: String)
        ensures
            r@ == marshal_text(val.deep_view()),
    {
        let mut hash = String::new();
        let mut i: usize = 0;
        proof {
            reveal_strlit("=");
            assert(val.deep_view().take(0) =~= Seq::<HashView>::empty());
        }
        while i < val.len()
            invariant
                i <= val.len(),
                hash@ == marshal_text(val.deep_view().take(i as int)),
                "="@ == seq!['='],
            decreases val.len() - i,
        {
            let ghost before = hash@;
            match &val[i] {
                crate::Hash::Str(k, v) => {
                    hash.append(k.as_str());
                    hash.append("=");
                    hash.append(v.as_str());
                },
                crate::Hash::Vec(k, vs) => {
                    hash.append(k.as_str());
                    hash.append("=");
                    push_list(&mut hash, vs);
                },
                crate::Hash::Placeholder => {
                    hash.append("=");
                },
            }
            proof {
                let t = val.deep_view().take(i + 1);
                assert(t.drop_last() =~= val.deep_view().take(i as int));
                assert(t.last() == val[i as int]@);
                assert(hash@ =~= before + entry_text(val[i as int]@));
            }
            i = i + 1;
        }
        assert(val.deep_view().take(i as int) =~= val.deep_view());
        hash
    }
}

} // verus!
