//! Why compressing a message twice gives what compressing it once gives.
//!
//! A compressed text is a run of lines with no trailing whitespace, no two
//! blank lines in a row, and no leading or trailing whitespace as a whole;
//! compression leaves such a text as it is.

use vstd::prelude::*;
use crate::ingester::filter::{compress_join, compress_piece, compressed};
use crate::text::{is_blank, is_ws, trim, trim_end, trim_start};
use crate::textops::{has_char, line_fold, lines, strip_cr};

verus! {

// ───────────────────────── Trimming ─────────────────────────

proof fn lemma_trim_end_prefix(s: Seq<char>)
    ensures
        trim_end(s).len() <= s.len(),
        trim_end(s) == s.take(trim_end(s).len() as int),
        trim_end(s).len() > 0 ==> !is_ws(trim_end(s).last()),
    decreases s.len(),
{
    if s.len() > 0 && is_ws(s.last()) {
        lemma_trim_end_prefix(s.drop_last());
        assert(s.drop_last().take(trim_end(s).len() as int) =~= s.take(trim_end(s).len() as int));
    } else {
        assert(s.take(s.len() as int) =~= s);
    }
}

proof fn lemma_trim_start_suffix(s: Seq<char>)
    ensures
        trim_start(s).len() <= s.len(),
        trim_start(s) == s.skip(s.len() - trim_start(s).len()),
        !is_blank(s) ==> trim_start(s).len() > 0 && !is_ws(trim_start(s)[0]),
    decreases s.len(),
{
    if s.len() > 0 && is_ws(s[0]) {
        lemma_trim_start_suffix(s.drop_first());
        assert(s.drop_first().skip(s.drop_first().len() - trim_start(s).len()) =~= s.skip(
            s.len() - trim_start(s).len(),
        ));
        if !is_blank(s) {
            let i = choose|i: int| 0 <= i < s.len() && !is_ws(s[i]);
            assert(!is_ws(s.drop_first()[i - 1]));
        }
    } else {
        assert(s.skip(0) =~= s);
        if !is_blank(s) {
            assert(s.len() > 0);
        }
    }
}

/// Leading whitespace of `a` is all the whitespace that trimming the start
/// of `a + b` removes, when `a` holds something else.
proof fn lemma_trim_start_concat(a: Seq<char>, b: Seq<char>)
    requires
        !is_blank(a),
    ensures
        trim_start(a + b) == trim_start(a) + b,
    decreases a.len(),
{
    let i = choose|i: int| 0 <= i < a.len() && !is_ws(a[i]);
    assert((a + b)[0] == a[0]);
    if is_ws(a[0]) {
        assert((a + b).drop_first() =~= a.drop_first() + b);
        assert(!is_ws(a.drop_first()[i - 1]));
        lemma_trim_start_concat(a.drop_first(), b);
    }
}

proof fn lemma_no_nl_prefix(s: Seq<char>, k: int)
    requires
        0 <= k <= s.len(),
        !has_char(s, '\n'),
    ensures
        !has_char(s.take(k), '\n'),
        !has_char(s.skip(k), '\n'),
{
    if has_char(s.take(k), '\n') {
        let i = choose|i: int| 0 <= i < s.take(k).len() && s.take(k)[i] == '\n';
        assert(s[i] == '\n');
    }
    if has_char(s.skip(k), '\n') {
        let i = choose|i: int| 0 <= i < s.skip(k).len() && s.skip(k)[i] == '\n';
        assert(s[i + k] == '\n');
    }
}

// ───────────────────────── Lines as segments ─────────────────────────

/// Each of `ss` followed by a newline.
pub open spec fn join_nl(ss: Seq<Seq<char>>) -> Seq<char>
    decreases ss.len(),
{
    if ss.len() == 0 {
        seq![]
    } else {
        join_nl(ss.drop_last()) + ss.last().push('\n')
    }
}

/// `ss` joined with newlines between them.
pub open spec fn join_lines(ss: Seq<Seq<char>>) -> Seq<char>
    decreases ss.len(),
{
    if ss.len() == 0 {
        seq![]
    } else if ss.len() == 1 {
        ss[0]
    } else {
        join_lines(ss.drop_last()).push('\n') + ss.last()
    }
}

/// Lines as compression leaves them: none holds a newline or ends in
/// whitespace, and no two blank lines follow each other.
pub open spec fn tidy(ss: Seq<Seq<char>>) -> bool {
    &&& forall|k: int| 0 <= k < ss.len() ==> trim_end(#[trigger] ss[k]) == ss[k] && !has_char(ss[k], '\n')
    &&& forall|k: int| 0 < k < ss.len() && (#[trigger] ss[k]).len() == 0 ==> ss[k - 1].len() > 0
}

/// The lines that compression writes for the first `n` of `ls`: each
/// without trailing whitespace, the second and later blank line of a run
/// left out.
pub open spec fn kept_lines(ls: Seq<Seq<char>>, n: nat) -> Seq<Seq<char>>
    decreases n,
{
    if n == 0 {
        seq![]
    } else {
        let p = kept_lines(ls, (n - 1) as nat);
        let t = trim_end(ls[n - 1]);
        if t.len() == 0 && !(n - 1 == 0 || trim_end(ls[n - 2]).len() > 0) {
            p
        } else {
            p.push(t)
        }
    }
}

proof fn lemma_join_nl_split(ss: Seq<Seq<char>>)
    requires
        ss.len() > 0,
    ensures
        join_nl(ss) == join_lines(ss).push('\n'),
        join_nl(ss) == ss[0].push('\n') + join_nl(ss.skip(1)),
    decreases ss.len(),
{
    if ss.len() == 1 {
        assert(ss.drop_last() =~= Seq::<Seq<char>>::empty());
        assert(ss.skip(1) =~= Seq::<Seq<char>>::empty());
        assert(join_nl(ss.drop_last()) == Seq::<char>::empty());
        assert(join_nl(ss.skip(1)) == Seq::<char>::empty());
        assert(ss.last() == ss[0]);
        assert(join_nl(ss) =~= ss[0].push('\n'));
        assert(ss[0].push('\n') + join_nl(ss.skip(1)) =~= ss[0].push('\n'));
    } else {
        lemma_join_nl_split(ss.drop_last());
        assert(ss.drop_last().skip(1) =~= ss.skip(1).drop_last());
        assert(ss.skip(1).last() == ss.last());
        assert(join_nl(ss) =~= join_lines(ss).push('\n'));
        assert(join_nl(ss) =~= ss[0].push('\n') + join_nl(ss.skip(1)));
    }
}

proof fn lemma_join_lines_ends(ss: Seq<Seq<char>>)
    requires
        ss.len() > 0,
        ss[0].len() > 0,
        ss.last().len() > 0,
    ensures
        join_lines(ss).len() > 0,
        join_lines(ss)[0] == ss[0][0],
        join_lines(ss).last() == ss.last().last(),
    decreases ss.len(),
{
    if ss.len() > 1 {
        if ss.drop_last().last().len() > 0 {
            lemma_join_lines_ends(ss.drop_last());
        } else {
            lemma_join_lines_first(ss.drop_last());
        }
    }
}

proof fn lemma_join_lines_first(ss: Seq<Seq<char>>)
    requires
        ss.len() > 0,
        ss[0].len() > 0,
    ensures
        join_lines(ss).len() > 0,
        join_lines(ss)[0] == ss[0][0],
    decreases ss.len(),
{
    if ss.len() > 1 {
        lemma_join_lines_first(ss.drop_last());
    }
}

/// Compression joins its kept lines, each with a newline.
proof fn lemma_compress_join_kept(ls: Seq<Seq<char>>, n: nat)
    requires
        n <= ls.len(),
    ensures
        compress_join(ls, n) == join_nl(kept_lines(ls, n)),
    decreases n,
{
    if n > 0 {
        lemma_compress_join_kept(ls, (n - 1) as nat);
        let t = trim_end(ls[n - 1]);
        if t.len() == 0 {
            assert(t.push('\n') =~= seq!['\n']);
        }
        if !(t.len() == 0 && !(n - 1 == 0 || trim_end(ls[n - 2]).len() > 0)) {
            assert(kept_lines(ls, n).drop_last() == kept_lines(ls, (n - 1) as nat));
        } else {
            assert(compress_piece(ls, n - 1) =~= seq![]);
        }
    }
}

/// The kept lines of lines without newlines are tidy, and the last is blank
/// exactly when the last line read was.
proof fn lemma_kept_tidy(ls: Seq<Seq<char>>, n: nat)
    requires
        n <= ls.len(),
        forall|i: int| 0 <= i < ls.len() ==> !has_char(#[trigger] ls[i], '\n'),
    ensures
        tidy(kept_lines(ls, n)),
        n > 0 ==> kept_lines(ls, n).len() > 0 && (kept_lines(ls, n).last().len() == 0 <==> trim_end(
            ls[n - 1],
        ).len() == 0),
    decreases n,
{
    if n > 0 {
        lemma_kept_tidy(ls, (n - 1) as nat);
        let p = kept_lines(ls, (n - 1) as nat);
        let t = trim_end(ls[n - 1]);
        lemma_trim_end_prefix(ls[n - 1]);
        lemma_trim_end_prefix(t);
        lemma_no_nl_prefix(ls[n - 1], t.len() as int);
        if t.len() > 0 {
            assert(trim_end(t) == t);
        } else {
            assert(t =~= Seq::<char>::empty());
        }
        let q = kept_lines(ls, n);
        assert forall|k: int| 0 <= k < q.len() implies trim_end(#[trigger] q[k]) == q[k] && !has_char(q[k], '\n') by {
            if k < p.len() {
                assert(q[k] == p[k]);
            }
        }
        assert forall|k: int| 0 < k < q.len() && (#[trigger] q[k]).len() == 0 implies q[k - 1].len() > 0 by {
            if k < p.len() {
                assert(q[k] == p[k]);
            }
        }
    }
}


// ───────────────────────── Reading lines back ─────────────────────────

proof fn lemma_line_fold_no_nl(s: Seq<char>)
    ensures
        forall|i: int| 0 <= i < line_fold(s).0.len() ==> !has_char(#[trigger] line_fold(s).0[i], '\n'),
        !has_char(line_fold(s).1, '\n'),
    decreases s.len(),
{
    if s.len() > 0 {
        lemma_line_fold_no_nl(s.drop_last());
        let p = line_fold(s.drop_last());
        if s.last() == '\n' {
            if p.1.len() > 0 && p.1.last() == '\r' {
                lemma_no_nl_prefix(p.1, p.1.len() - 1);
                assert(p.1.take(p.1.len() - 1) =~= strip_cr(p.1));
            }
            let q = line_fold(s).0;
            assert forall|i: int| 0 <= i < q.len() implies !has_char(#[trigger] q[i], '\n') by {
                if i < p.0.len() {
                    assert(q[i] == p.0[i]);
                }
            }
            assert(line_fold(s).1 =~= Seq::<char>::empty());
        } else {
            if has_char(p.1.push(s.last()), '\n') {
                let i = choose|i: int| 0 <= i < p.1.push(s.last()).len() && p.1.push(s.last())[i] == '\n';
                assert(i < p.1.len());
                assert(p.1[i] == '\n');
            }
        }
    }
}

proof fn lemma_lines_no_nl(s: Seq<char>)
    ensures
        forall|i: int| 0 <= i < lines(s).len() ==> !has_char(#[trigger] lines(s)[i], '\n'),
{
    lemma_line_fold_no_nl(s);
    let p = line_fold(s);
    assert forall|i: int| 0 <= i < lines(s).len() implies !has_char(#[trigger] lines(s)[i], '\n') by {
        if i < p.0.len() {
            assert(lines(s)[i] == p.0[i]);
        }
    }
}

/// Reading on through text without a newline extends the current line.
proof fn lemma_line_fold_append(x: Seq<char>, t: Seq<char>)
    requires
        !has_char(t, '\n'),
    ensures
        line_fold(x + t) == (line_fold(x).0, line_fold(x).1 + t),
    decreases t.len(),
{
    if t.len() == 0 {
        assert(x + t =~= x);
        assert(line_fold(x).1 + t =~= line_fold(x).1);
    } else {
        lemma_no_nl_prefix(t, t.len() - 1);
        assert(t.take(t.len() - 1) =~= t.drop_last());
        lemma_line_fold_append(x, t.drop_last());
        assert((x + t).drop_last() =~= x + t.drop_last());
        assert(t.last() != '\n') by {
            if t.last() == '\n' {
                assert(t[t.len() - 1] == '\n');
            }
        }
        assert(line_fold(x).1 + t.drop_last() + seq![t.last()] =~= line_fold(x).1 + t);
        assert((line_fold(x).1 + t.drop_last()).push(t.last()) =~= line_fold(x).1 + t);
    }
}

proof fn lemma_tidy_no_cr(l: Seq<char>)
    requires
        trim_end(l) == l,
    ensures
        strip_cr(l) == l,
{
    if l.len() > 0 {
        lemma_trim_end_prefix(l);
        assert(!is_ws(l.last()));
    }
}

/// Reading tidy lines joined with newlines gives them back.
proof fn lemma_line_fold_join(ss: Seq<Seq<char>>)
    requires
        ss.len() > 0,
        tidy(ss),
    ensures
        line_fold(join_lines(ss)) == (ss.drop_last(), ss.last()),
    decreases ss.len(),
{
    assert(trim_end(ss.last()) == ss.last() && !has_char(ss.last(), '\n'));
    if ss.len() == 1 {
        lemma_line_fold_append(seq![], ss[0]);
        assert(Seq::<char>::empty() + ss[0] =~= ss[0]);
        assert(line_fold(Seq::<char>::empty()) == (Seq::<Seq<char>>::empty(), Seq::<char>::empty()));
        assert(Seq::<char>::empty() + ss[0] =~= ss[0]);
        assert(ss.drop_last() =~= Seq::<Seq<char>>::empty());
    } else {
        let init = ss.drop_last();
        assert(tidy(init)) by {
            assert forall|k: int| 0 <= k < init.len() implies trim_end(#[trigger] init[k]) == init[k] && !has_char(init[k], '\n') by {
                assert(init[k] == ss[k]);
            }
            assert forall|k: int| 0 < k < init.len() && (#[trigger] init[k]).len() == 0 implies init[k - 1].len() > 0 by {
                assert(init[k] == ss[k]);
            }
        }
        lemma_line_fold_join(init);
        let x = join_lines(init).push('\n');
        assert(x.drop_last() =~= join_lines(init));
        assert(x.last() == '\n');
        assert(trim_end(init.last()) == init.last());
        lemma_tidy_no_cr(init.last());
        assert(line_fold(x) == (init.drop_last().push(init.last()), Seq::<char>::empty()));
        assert(init.drop_last().push(init.last()) =~= init);
        lemma_line_fold_append(x, ss.last());
        assert(Seq::<char>::empty() + ss.last() =~= ss.last());
    }
}

/// Tidy lines that start and end with something other than whitespace are
/// left as they are by compression.
proof fn lemma_compress_tidy(ss: Seq<Seq<char>>)
    requires
        tidy(ss),
        ss.len() > 0 ==> ss[0].len() > 0 && !is_ws(ss[0][0]) && ss.last().len() > 0,
    ensures
        compressed(join_lines(ss)) == join_lines(ss),
{
    let y = join_lines(ss);
    if ss.len() == 0 {
        assert(line_fold(y) == (Seq::<Seq<char>>::empty(), Seq::<char>::empty()));
        assert(lines(y) == Seq::<Seq<char>>::empty());
        assert(compress_join(lines(y), 0) == Seq::<char>::empty());
    } else {
        lemma_line_fold_join(ss);
        assert(ss.drop_last().push(ss.last()) =~= ss);
        assert(lines(y) == ss);
        lemma_compress_join_tidy(ss, ss.len());
        assert(ss.take(ss.len() as int) =~= ss);
        lemma_join_nl_split(ss);
        lemma_join_lines_ends(ss);
        let z = y.push('\n');
        assert(z[0] == y[0]);
        assert(trim_start(z) == z);
        assert(z.drop_last() =~= y);
        assert(trim_end(z) == trim_end(y));
        assert(trim_end(ss.last()) == ss.last());
        lemma_trim_end_prefix(ss.last());
        assert(!is_ws(y.last()));
        assert(trim_end(y) == y);
    }
}

proof fn lemma_compress_join_tidy(ss: Seq<Seq<char>>, m: nat)
    requires
        tidy(ss),
        ss.len() > 0 ==> ss[0].len() > 0,
        m <= ss.len(),
    ensures
        compress_join(ss, m) == join_nl(ss.take(m as int)),
    decreases m,
{
    if m == 0 {
        assert(ss.take(0) =~= Seq::<Seq<char>>::empty());
    } else {
        lemma_compress_join_tidy(ss, (m - 1) as nat);
        assert(ss.take(m as int).drop_last() =~= ss.take(m - 1));
        assert(trim_end(ss[m - 1]) == ss[m - 1]);
        if ss[m - 1].len() == 0 {
            assert(m - 1 > 0);
            assert(trim_end(ss[m - 2]) == ss[m - 2]);
            assert(ss[m - 1].push('\n') =~= seq!['\n']);
        }
    }
}


// ───────────────────────── Trimming joined lines ─────────────────────────

proof fn lemma_tidy_line_not_blank(l: Seq<char>)
    requires
        trim_end(l) == l,
        l.len() > 0,
    ensures
        !is_ws(l.last()),
        !is_blank(l),
        !is_blank(l.push('\n')),
{
    lemma_trim_end_prefix(l);
    assert(l.push('\n')[l.len() - 1] == l.last());
}

/// Trimming the start of tidy lines, each with a newline, leaves tidy lines
/// whose first starts with something other than whitespace.
proof fn lemma_trim_start_join(ss: Seq<Seq<char>>) -> (r: Seq<Seq<char>>)
    requires
        tidy(ss),
    ensures
        tidy(r),
        trim_start(join_nl(ss)) == join_nl(r),
        r.len() > 0 ==> r[0].len() > 0 && !is_ws(r[0][0]),
    decreases ss.len(),
{
    if ss.len() == 0 {
        ss
    } else {
        lemma_join_nl_split(ss);
        let rest = ss.skip(1);
        assert(tidy(rest)) by {
            assert forall|k: int| 0 <= k < rest.len() implies trim_end(#[trigger] rest[k]) == rest[k] && !has_char(rest[k], '\n') by {
                assert(rest[k] == ss[k + 1]);
            }
            assert forall|k: int| 0 < k < rest.len() && (#[trigger] rest[k]).len() == 0 implies rest[k - 1].len() > 0 by {
                assert(rest[k] == ss[k + 1]);
            }
        }
        if ss[0].len() == 0 {
            let x = join_nl(ss);
            assert(ss[0].push('\n') =~= seq!['\n']);
            assert(x[0] == '\n');
            assert(x.drop_first() =~= join_nl(rest));
            if rest.len() > 0 {
                assert(rest[0] == ss[1]);
            }
            lemma_trim_start_join(rest)
        } else {
            let f = ss[0];
            assert(trim_end(f) == f && !has_char(f, '\n'));
            lemma_tidy_line_not_blank(f);
            assert(f.push('\n') =~= f + seq!['\n']);
            lemma_trim_start_concat(f.push('\n'), join_nl(rest));
            lemma_trim_start_concat(f, seq!['\n']);
            lemma_trim_start_suffix(f);
            let g = trim_start(f);
            lemma_no_nl_prefix(f, f.len() - g.len());
            assert(g.last() == f.last());
            assert(trim_end(g) == g);
            let r = ss.update(0, g);
            assert(r.skip(1) =~= rest);
            lemma_join_nl_split(r);
            assert(g + seq!['\n'] =~= g.push('\n'));
            assert(tidy(r)) by {
                assert forall|k: int| 0 <= k < r.len() implies trim_end(#[trigger] r[k]) == r[k] && !has_char(r[k], '\n') by {
                    if k > 0 {
                        assert(r[k] == ss[k]);
                    }
                }
                assert forall|k: int| 0 < k < r.len() && (#[trigger] r[k]).len() == 0 implies r[k - 1].len() > 0 by {
                    assert(r[k] == ss[k]);
                    if k > 1 {
                        assert(r[k - 1] == ss[k - 1]);
                    }
                }
            }
            r
        }
    }
}

/// Trimming the end of tidy lines, each with a newline, leaves them joined
/// with newlines, a blank last line dropped.
proof fn lemma_trim_end_join(ss: Seq<Seq<char>>) -> (r: Seq<Seq<char>>)
    requires
        tidy(ss),
        ss.len() > 0 ==> ss[0].len() > 0 && !is_ws(ss[0][0]),
    ensures
        tidy(r),
        trim_end(join_nl(ss)) == join_lines(r),
        r.len() > 0 ==> r[0].len() > 0 && !is_ws(r[0][0]) && r.last().len() > 0,
{
    if ss.len() == 0 {
        ss
    } else {
        lemma_join_nl_split(ss);
        let y = join_lines(ss);
        assert(y.push('\n').drop_last() =~= y);
        assert(trim_end(join_nl(ss)) == trim_end(y));
        if ss.last().len() > 0 {
            lemma_join_lines_ends(ss);
            assert(trim_end(ss.last()) == ss.last());
            lemma_tidy_line_not_blank(ss.last());
            assert(trim_end(y) == y);
            ss
        } else {
            let init = ss.drop_last();
            assert(ss.len() >= 2);
            assert(init.last() == ss[ss.len() - 2]);
            assert(init.last().len() > 0);
            assert(y =~= join_lines(init).push('\n'));
            assert(join_lines(init).push('\n').drop_last() =~= join_lines(init));
            assert(init[0] == ss[0]);
            lemma_join_lines_ends(init);
            assert(trim_end(init.last()) == init.last());
            lemma_tidy_line_not_blank(init.last());
            assert(trim_end(join_lines(init)) == join_lines(init));
            assert(tidy(init)) by {
                assert forall|k: int| 0 <= k < init.len() implies trim_end(#[trigger] init[k]) == init[k] && !has_char(init[k], '\n') by {
                    assert(init[k] == ss[k]);
                }
                assert forall|k: int| 0 < k < init.len() && (#[trigger] init[k]).len() == 0 implies init[k - 1].len() > 0 by {
                    assert(init[k] == ss[k]);
                }
            }
            init
        }
    }
}

// ───────────────────────── The law ─────────────────────────

/// Compressing a text twice gives what compressing it once gives.
pub proof fn lemma_compress_idempotent(content: Seq<char>)
    ensures
        compressed(compressed(content)) == compressed(content),
{
    let ls = lines(content);
    lemma_lines_no_nl(content);
    lemma_compress_join_kept(ls, ls.len());
    lemma_kept_tidy(ls, ls.len());
    let s = kept_lines(ls, ls.len());
    let s2 = lemma_trim_start_join(s);
    let s3 = lemma_trim_end_join(s2);
    assert(compressed(content) == join_lines(s3));
    lemma_compress_tidy(s3);
}


} // verus!
