use vstd::prelude::*;
use crate::error::Error;
use crate::parser::{ExpressionOrString, PrintFunc};

verus! {

/// `s` with every non-overlapping occurrence, from the left, of the two
/// characters `a` `c` replaced by `rep`.
pub open spec fn replace_pair(s: Seq<char>, a: char, c: char, rep: char) -> Seq<char>
    decreases s.len(),
{
    if s.len() == 0 {
        Seq::empty()
    } else if s.len() >= 2 && s[0] == a && s[1] == c {
        seq![rep] + replace_pair(s.skip(2), a, c, rep)
    } else {
        seq![s[0]] + replace_pair(s.skip(1), a, c, rep)
    }
}

/// The escapes `\n` and `\t` of a `print()` string turned into a newline
/// and a tab.
pub open spec fn process_spec(s: Seq<char>) -> Seq<char> {
    replace_pair(replace_pair(s, '\\', 'n', '\n'), '\\', 't', '\t')
}

/// Replaces every `\` followed by `c`, from the left and without overlap,
/// by the single character of `rep`.
fn replace_escape(s: &str, c: char, rep: &str) -> (res: String)
    requires
        rep@.len() == 1,
    ensures
        res@ == replace_pair(s@, '\\', c, rep@[0]),
{
    let n = s.unicode_len();
    let mut out = String::new();
    let mut i: usize = 0;
    proof {
        assert(s@.skip(0) =~= s@);
    }
    while i < n
        invariant
            n == s@.len(),
            i <= n,
            rep@.len() == 1,
            replace_pair(s@, '\\', c, rep@[0]) == out@ + replace_pair(s@.skip(i as int), '\\', c, rep@[0]),
        decreases n - i,
    {
        let ghost rest = s@.skip(i as int);
        let ch = s.get_char(i);
        if ch == '\\' && i + 1 < n && s.get_char(i + 1) == c {
            assert(rest[0] == ch && rest[1] == c);
            assert(rest.skip(2) =~= s@.skip(i + 2));
            out.append(rep);
            i = i + 2;
            assert(rep@ =~= seq![rep@[0]]);
        } else {
            assert(rest[0] == ch);
            assert(rest.skip(1) =~= s@.skip(i + 1));
            let one = s.substring_char(i, i + 1);
            assert(one@ =~= seq![ch]);
            out.append(one);
            i = i + 1;
        }
    }
    assert(s@.skip(i as int) =~= Seq::<char>::empty());
    out
}

/// The text a `print()` string argument stands for: `\n` becomes a newline
/// and `\t` a tab.
pub fn process_str(s: &str) -> (res: String)
    ensures
        res@ == process_spec(s@),
{
    let nl = "\n";
    let tab = "\t";
    proof {
        reveal_strlit("\n");
        reveal_strlit("\t");
    }
    let first = replace_escape(s, 'n', nl);
    replace_escape(first.as_str(), 't', tab)
}

/// The text of one `print()` argument: the given text of an expression,
/// or the processed string.
pub open spec fn item_text(item: ExpressionOrString, t: Seq<char>) -> Seq<char> {
    match item {
        ExpressionOrString::EExpr(_) => t,
        ExpressionOrString::EStr(s) => process_spec(s@),
    }
}

/// The line a `print()` call writes: the texts of its arguments, separated
/// by single spaces.
pub open spec fn render_spec(items: Seq<ExpressionOrString>, texts: Seq<Seq<char>>) -> Seq<char>
    decreases items.len(),
{
    if items.len() == 0 {
        Seq::empty()
    } else if items.len() == 1 {
        item_text(items[0], texts[0])
    } else {
        render_spec(items.drop_last(), texts.drop_last()) + seq![' '] + item_text(
            items.last(),
            texts.last(),
        )
    }
}

/// The first argument is a string holding `%`: a printf-style call.
pub open spec fn printf_spec(items: Seq<ExpressionOrString>) -> bool {
    items.len() > 0 && (items[0] matches ExpressionOrString::EStr(s) && s@.contains('%'))
}

/// The index of the last expression argument, whose value the call
/// returns.
pub open spec fn last_expr_spec(items: Seq<ExpressionOrString>) -> Option<usize>
    decreases items.len(),
{
    if items.len() == 0 {
        None
    } else if items.last() is EExpr {
        Some((items.len() - 1) as usize)
    } else {
        last_expr_spec(items.drop_last())
    }
}

/// The line of a `print()` call read from the front: the text of the
/// first argument, a space, and the line of the remaining arguments; a
/// single argument gives its own text and no argument an empty line.
pub proof fn lemma_render_front(items: Seq<ExpressionOrString>, texts: Seq<Seq<char>>)
    requires
        texts.len() == items.len(),
    ensures
        items.len() == 0 ==> render_spec(items, texts) == Seq::<char>::empty(),
        items.len() == 1 ==> render_spec(items, texts) == item_text(items[0], texts[0]),
        items.len() >= 2 ==> render_spec(items, texts) == item_text(items[0], texts[0]) + seq![' ']
            + render_spec(items.skip(1), texts.skip(1)),
    decreases items.len(),
{
    if items.len() == 2 {
        assert(items.drop_last().len() == 1 && items.drop_last()[0] == items[0]);
        assert(texts.drop_last()[0] == texts[0]);
        assert(items.skip(1).len() == 1 && items.skip(1)[0] == items.last());
        assert(texts.skip(1)[0] == texts.last());
        assert(render_spec(items.drop_last(), texts.drop_last()) == item_text(items[0], texts[0]));
        assert(render_spec(items.skip(1), texts.skip(1)) == item_text(items.last(), texts.last()));
        assert(render_spec(items, texts) =~= item_text(items[0], texts[0]) + seq![' '] + render_spec(
            items.skip(1),
            texts.skip(1),
        ));
    } else if items.len() > 2 {
        let di = items.drop_last();
        let dt = texts.drop_last();
        lemma_render_front(di, dt);
        assert(di[0] == items[0] && dt[0] == texts[0]);
        assert(di.skip(1) =~= items.skip(1).drop_last());
        assert(dt.skip(1) =~= texts.skip(1).drop_last());
        assert(items.skip(1).last() == items.last());
        assert(texts.skip(1).last() == texts.last());
        assert(render_spec(items.skip(1), texts.skip(1)) == render_spec(di.skip(1), dt.skip(1)) + seq![' ']
            + item_text(items.last(), texts.last()));
        assert(render_spec(items, texts) =~= item_text(items[0], texts[0]) + seq![' '] + render_spec(
            items.skip(1),
            texts.skip(1),
        ));
    }
}

/// Text with no backslash holds no escape and is left as it is.
pub proof fn lemma_process_plain(s: Seq<char>)
    ensures
        !s.contains('\\') ==> process_spec(s) == s,
{
    if !s.contains('\\') {
        lemma_replace_plain(s, 'n', '\n');
        lemma_replace_plain(s, 't', '\t');
    }
}

proof fn lemma_replace_plain(s: Seq<char>, c: char, rep: char)
    requires
        !s.contains('\\'),
    ensures
        replace_pair(s, '\\', c, rep) == s,
    decreases s.len(),
{
    if s.len() > 0 {
        assert(s[0] != '\\');
        assert(!s.skip(1).contains('\\')) by {
            if s.skip(1).contains('\\') {
                let j = choose|j: int| 0 <= j < s.skip(1).len() && s.skip(1)[j] == '\\';
                assert(s[j + 1] == '\\');
            }
        }
        lemma_replace_plain(s.skip(1), c, rep);
        assert(seq![s[0]] + s.skip(1) =~= s);
    }
}

/// The value of a `print()` call comes from its last expression argument:
/// the index found is that of an expression argument with none after it,
/// and none is found only when no argument is an expression.
pub proof fn lemma_last_expr(items: Seq<ExpressionOrString>)
    requires
        items.len() <= usize::MAX,
    ensures
        last_expr_spec(items) matches Some(k) ==> {
            &&& k < items.len()
            &&& items[k as int] is EExpr
            &&& forall|j: int| k < j < items.len() ==> !(#[trigger] items[j] is EExpr)
        },
        last_expr_spec(items) is None ==> forall|j: int|
            0 <= j < items.len() ==> !(#[trigger] items[j] is EExpr),
    decreases items.len(),
{
    if items.len() > 0 {
        assert(items.last() == items[items.len() - 1]);
        if !(items.last() is EExpr) {
            let p = items.drop_last();
            lemma_last_expr(p);
            assert(last_expr_spec(items) == last_expr_spec(p));
            assert forall|j: int| 0 <= j < p.len() implies p[j] == items[j] by {}
        }
    }
}

/// Whether `c` occurs in `s`.
fn str_contains(s: &str, c: char) -> (res: bool)
    ensures
        res == s@.contains(c),
{
    let n = s.unicode_len();
    let mut i: usize = 0;
    while i < n
        invariant
            n == s@.len(),
            i <= n,
            forall|j: int| 0 <= j < i ==> s@[j] != c,
        decreases n - i,
    {
        if s.get_char(i) == c {
            assert(s@[i as int] == c);
            return true;
        }
        i = i + 1;
    }
    false
}

impl PrintFunc {
    /// Refuses a printf-style call (first argument a string holding `%`),
    /// which is not implemented.
    pub fn check_mode(&self) -> (res: Result<(), Error>)
        ensures
            res is Ok <==> !printf_spec(self.0@),
            res matches Err(e) ==> (e matches Error::WrongArgs(m)
                && m@ == "printf formatting is not yet implemented"@),
    {
        if self.0.len() > 0 {
            match &self.0[0] {
                ExpressionOrString::EStr(fmtstr) => {
                    if str_contains(fmtstr.as_str(), '%') {
                        let msg = String::from_str("printf formatting is not yet implemented");
                        return Err(Error::WrongArgs(msg));
                    }
                },
                ExpressionOrString::EExpr(_) => {},
            }
        }
        Ok(())
    }

    /// The line this call writes, given in `texts[k]` the text of the value
    /// of argument `k` when that argument is an expression (entries for
    /// string arguments are not read).
    pub fn render(&self, texts: &Vec<String>) -> (res: String)
        requires
            texts@.len() == self.0@.len(),
        ensures
            res@ == render_spec(self.0@, texts@.map_values(|t: String| t@)),
    {
        let ghost tv = texts@.map_values(|t: String| t@);
        let mut out = String::new();
        let mut k: usize = 0;
        while k < self.0.len()
            invariant
                k <= self.0@.len(),
                texts@.len() == self.0@.len(),
                tv == texts@.map_values(|t: String| t@),
                out@ == render_spec(self.0@.take(k as int), tv.take(k as int)),
            decreases self.0@.len() - k,
        {
            if k > 0 {
                let sp = " ";
                proof {
                    reveal_strlit(" ");
                }
                out.append(sp);
            }
            match &self.0[k] {
                ExpressionOrString::EExpr(_) => {
                    out.append(texts[k].as_str());
                },
                ExpressionOrString::EStr(s) => {
                    let p = process_str(s.as_str());
                    out.append(p.as_str());
                },
            }
            proof {
                let it = self.0@.take(k + 1);
                let tt = tv.take(k + 1);
                assert(it.drop_last() =~= self.0@.take(k as int));
                assert(tt.drop_last() =~= tv.take(k as int));
                assert(it.last() == self.0@[k as int]);
                assert(tt.last() == texts@[k as int]@);
                assert(out@ =~= render_spec(it, tt));
            }
            k = k + 1;
        }
        assert(self.0@.take(k as int) =~= self.0@);
        assert(tv.take(k as int) =~= tv);
        out
    }

    /// The argument whose value the call returns: the last expression
    /// argument; `None` when there is none (the call then returns 0).
    pub fn value_source(&self) -> (res: Option<usize>)
        ensures
            res == last_expr_spec(self.0@),
            res matches Some(k) ==> {
                &&& k < self.0@.len()
                &&& self.0@[k as int] is EExpr
                &&& forall|j: int| k < j < self.0@.len() ==> !(#[trigger] self.0@[j] is EExpr)
            },
            res is None ==> forall|j: int|
                0 <= j < self.0@.len() ==> !(#[trigger] self.0@[j] is EExpr),
    {
        let mut k = self.0.len();
        proof {
            lemma_last_expr(self.0@);
        }
        assert(self.0@.take(k as int) =~= self.0@);
        while k > 0
            invariant
                k <= self.0@.len(),
                self.0@.len() <= usize::MAX,
                last_expr_spec(self.0@) == last_expr_spec(self.0@.take(k as int)),
            decreases k,
        {
            let ghost t = self.0@.take(k as int);
            assert(t.last() == self.0@[k - 1]);
            assert(t.drop_last() =~= self.0@.take(k - 1));
            match &self.0[k - 1] {
                ExpressionOrString::EExpr(_) => {
                    assert(last_expr_spec(t) == Some((k - 1) as usize));
                    proof {
                        lemma_last_expr(self.0@);
                    }
                    return Some(k - 1);
                },
                ExpressionOrString::EStr(_) => {},
            }
            k = k - 1;
        }
        None
    }
}

} // verus!
