use vstd::prelude::*;

use crate::color::push_char;

verus! {

/// Text horizontal alignment.
#[derive(Debug, Clone, Copy, PartialEq, Eq, Structural)]
pub enum Alignment {
    Left,
    Center,
    Right,
}

/// The SVG `text-anchor` value of an alignment.
pub open spec fn svg_anchor(a: Alignment) -> Seq<char> {
    match a {
        Alignment::Left => "start"@,
        Alignment::Center => "middle"@,
        Alignment::Right => "end"@,
    }
}

impl Alignment {
    /// The SVG `text-anchor` attribute value: `start`, `middle` or `end`.
    pub fn to_svg_anchor(self) -> (s: &'static str)
        ensures
            s@ == svg_anchor(self),
    {
        match self {
            Alignment::Left => "start",
            Alignment::Center => "middle",
            Alignment::Right => "end",
        }
    }
}

/// Lines joined back together with a `\n` between neighbours.
pub open spec fn join_lines(lines: Seq<Seq<char>>) -> Seq<char>
    decreases lines.len(),
{
    if lines.len() == 0 {
        Seq::empty()
    } else if lines.len() == 1 {
        lines[0]
    } else {
        join_lines(lines.drop_last()) + seq!['\n'] + lines.last()
    }
}

/// The character contents of a list of strings.
pub open spec fn lines_view(lines: Seq<String>) -> Seq<Seq<char>> {
    lines.map_values(|s: String| s@)
}

proof fn lemma_join_extend_last(ls: Seq<Seq<char>>, x: Seq<char>, c: char)
    ensures
        join_lines(ls.push(x.push(c))) == join_lines(ls.push(x)).push(c),
{
    assert(ls.push(x.push(c)).drop_last() =~= ls);
    assert(ls.push(x).drop_last() =~= ls);
    if ls.len() == 0 {
    } else {
        assert(join_lines(ls) + seq!['\n'] + x.push(c) =~= (join_lines(ls) + seq!['\n']
            + x).push(c));
    }
}

proof fn lemma_join_new_line(ls: Seq<Seq<char>>, x: Seq<char>)
    ensures
        join_lines(ls.push(x).push(Seq::empty())) == join_lines(ls.push(x)).push('\n'),
{
    assert(ls.push(x).push(Seq::empty()).drop_last() =~= ls.push(x));
    assert(join_lines(ls.push(x)) + seq!['\n'] + Seq::<char>::empty() =~= join_lines(
        ls.push(x),
    ).push('\n'));
}

/// Split text into its lines at every `\n` (the separators are dropped), as a
/// multi-line label is laid out: one SVG `<tspan>` per line.
pub fn split_lines(content: &str) -> (lines: Vec<String>)
    ensures
        lines@.len() >= 1,
        join_lines(lines_view(lines@)) == content@,
        forall|i: int| 0 <= i < lines@.len() ==> !(#[trigger] lines@[i])@.contains('\n'),
{
    let n = content.unicode_len();
    let mut lines: Vec<String> = Vec::new();
    let mut cur = String::new();
    let mut i: usize = 0;
    proof {
        assert(lines_view(lines@).push(cur@) =~= seq![Seq::<char>::empty()]);
        assert(content@.take(0) =~= Seq::<char>::empty());
    }
    while i < n
        invariant
            n == content@.len(),
            i <= n,
            join_lines(lines_view(lines@).push(cur@)) == content@.take(i as int),
            forall|k: int| 0 <= k < lines@.len() ==> !(#[trigger] lines@[k])@.contains('\n'),
            !cur@.contains('\n'),
        decreases n - i,
    {
        let c = content.get_char(i);
        let ghost lv = lines_view(lines@);
        let ghost cv = cur@;
        if c == '\n' {
            lines.push(cur);
            cur = String::new();
            proof {
                lemma_join_new_line(lv, cv);
                assert(lines_view(lines@) =~= lv.push(cv));
                assert(cur@ =~= Seq::<char>::empty());
                assert(content@.take(i + 1) =~= content@.take(i as int).push('\n'));
                assert forall|k: int| 0 <= k < lines@.len() implies !(
                #[trigger] lines@[k])@.contains('\n') by {
                    if k == lines@.len() - 1 {
                        assert(lines@[k]@ == cv);
                    }
                }
            }
        } else {
            push_char(&mut cur, c);
            proof {
                lemma_join_extend_last(lv, cv, c);
                assert(lines_view(lines@) == lv);
                assert(content@.take(i + 1) =~= content@.take(i as int).push(c));
                assert forall|x: char| cur@.contains(x) implies x != '\n' by {
                    let idx = choose|idx: int| 0 <= idx < cur@.len() && cur@[idx] == x;
                    if idx < cv.len() {
                        assert(cv[idx] == x);
                    }
                }
            }
        }
        i = i + 1;
    }
    let ghost lv = lines_view(lines@);
    lines.push(cur);
    proof {
        assert(lines_view(lines@) =~= lv.push(cur@));
        assert(content@.take(n as int) =~= content@);
        assert forall|k: int| 0 <= k < lines@.len() implies !(#[trigger] lines@[k])@.contains(
            '\n',
        ) by {
            if k == lines@.len() - 1 {
                assert(lines@[k]@ == cur@);
            }
        }
    }
    lines
}

} // verus!
