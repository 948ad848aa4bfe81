//! Text handling: plain-text substitution (the asset post-processing
//! pass) and the inline markup mini-language `{fg=<color> <text>}`,
//! lexed into styled characters.

use vstd::prelude::*;

use crate::style::{Color, Style};

verus! {

/// `s` begins with `p`.
pub open spec fn starts_with(s: Seq<char>, p: Seq<char>) -> bool {
    p.len() <= s.len() && s.take(p.len() as int) == p
}

/// Every occurrence of `pat` replaced by `rep`, scanning left to right
/// and never rescanning replaced text. An empty pattern replaces nothing.
pub open spec fn spec_replace(s: Seq<char>, pat: Seq<char>, rep: Seq<char>) -> Seq<char>
    decreases s.len(),
{
    if pat.len() == 0 || s.len() == 0 {
        s
    } else if starts_with(s, pat) {
        rep + spec_replace(s.skip(pat.len() as int), pat, rep)
    } else {
        seq![s[0]] + spec_replace(s.drop_first(), pat, rep)
    }
}

/// The characters of `s`, one cell of the vector per character.
pub fn chars_of(s: &str) -> (out: Vec<char>)
    ensures
        out@ == s@,
{
    let n: usize = s.unicode_len();
    let mut out: Vec<char> = Vec::new();
    let mut i: usize = 0;
    while i < n
        invariant
            0 <= i <= n,
            n == s@.len(),
            out@ =~= s@.take(i as int),
        decreases n - i,
    {
        let c: char = s.get_char(i);
        proof {
            assert(s@.take(i as int + 1) =~= s@.take(i as int).push(s@[i as int]));
        }
        out.push(c);
        i = i + 1;
    }
    proof {
        assert(s@.take(n as int) =~= s@);
    }
    out
}

/// `text[at .. at+pat.len()]` equals `pat`.
fn matches_at(text: &Vec<char>, at: usize, pat: &Vec<char>) -> (r: bool)
    requires
        at <= text@.len(),
    ensures
        r == starts_with(text@.skip(at as int), pat@),
{
    let m: usize = pat.len();
    if text.len() - at < m {
        return false;
    }
    let mut j: usize = 0;
    while j < m
        invariant
            0 <= j <= m,
            m == pat@.len(),
            at + m <= text@.len(),
            at + m <= usize::MAX,
            forall|q: int| 0 <= q < j ==> text@[at + q] == pat@[q],
        decreases m - j,
    {
        if text[at + j] != pat[j] {
            proof {
                assert(text@.skip(at as int).take(m as int)[j as int] != pat@[j as int]);
            }
            return false;
        }
        j = j + 1;
    }
    proof {
        assert(text@.skip(at as int).take(m as int) =~= pat@);
    }
    true
}

/// Every occurrence of `pat` in `text` replaced by `rep`, scanning left
/// to right.
pub fn replace_all(text: &Vec<char>, pat: &Vec<char>, rep: &Vec<char>) -> (out: Vec<char>)
    ensures
        out@ == spec_replace(text@, pat@, rep@),
{
    let ghost target = spec_replace(text@, pat@, rep@);
    let mut out: Vec<char> = Vec::new();
    if pat.len() == 0 {
        let mut i: usize = 0;
        let n: usize = text.len();
        while i < n
            invariant
                0 <= i <= n,
                n == text@.len(),
                out@ =~= text@.take(i as int),
            decreases n - i,
        {
            proof {
                assert(text@.take(i as int + 1) =~= text@.take(i as int).push(text@[i as int]));
            }
            out.push(text[i]);
            i = i + 1;
        }
        proof {
            assert(text@.take(n as int) =~= text@);
        }
        return out;
    }
    let n: usize = text.len();
    let m: usize = pat.len();
    let mut i: usize = 0;
    proof {
        assert(text@.skip(0) =~= text@);
        assert((Seq::<char>::empty() + spec_replace(text@, pat@, rep@)) =~= spec_replace(
            text@,
            pat@,
            rep@,
        ));
    }
    while i < n
        invariant
            0 <= i <= n,
            n == text@.len(),
            m == pat@.len(),
            m > 0,
            target == out@ + spec_replace(text@.skip(i as int), pat@, rep@),
        decreases n - i,
    {
        let hit: bool = matches_at(text, i, pat);
        if hit {
            // append the replacement
            let mut q: usize = 0;
            let rl: usize = rep.len();
            let ghost out0 = out@;
            while q < rl
                invariant
                    0 <= q <= rl,
                    rl == rep@.len(),
                    out@ =~= out0 + rep@.take(q as int),
                decreases rl - q,
            {
                proof {
                    assert((out0 + rep@.take(q as int)).push(rep@[q as int]) =~= out0 + rep@.take(
                        q as int + 1,
                    ));
                }
                out.push(rep[q]);
                q = q + 1;
            }
            proof {
                assert(out@ =~= out0 + rep@);
                assert(text@.skip(i as int).skip(m as int) =~= text@.skip(i as int + m as int));
                assert((out0 + spec_replace(text@.skip(i as int), pat@, rep@)) =~= ((out0 + rep@)
                    + spec_replace(text@.skip(i as int + m as int), pat@, rep@)));
            }
            i = i + m;
        } else {
            proof {
                assert(text@.skip(i as int)[0] == text@[i as int]);
                assert(text@.skip(i as int).drop_first() =~= text@.skip(i as int + 1));
                assert((out@ + spec_replace(text@.skip(i as int), pat@, rep@)) =~= (out@.push(
                    text@[i as int],
                ) + spec_replace(text@.skip(i as int + 1), pat@, rep@)));
            }
            out.push(text[i]);
            i = i + 1;
        }
    }
    proof {
        assert(text@.skip(n as int) =~= Seq::<char>::empty());
        assert((out@ + Seq::<char>::empty()) =~= out@);
    }
    out
}

/// The color names the markup language understands.
pub open spec fn spec_color_of(name: Seq<char>) -> Option<Color> {
    if name == "yellow"@ {
        Some(Color::Yellow)
    } else if name == "green"@ {
        Some(Color::Green)
    } else if name == "white"@ {
        Some(Color::White)
    } else if name == "magenta"@ {
        Some(Color::Magenta)
    } else if name == "cyan"@ {
        Some(Color::Cyan)
    } else if name == "red"@ {
        Some(Color::Red)
    } else if name == "blue"@ {
        Some(Color::Blue)
    } else if name == "black"@ {
        Some(Color::Black)
    } else if name == "gray"@ {
        Some(Color::Gray)
    } else if name == "darkgray"@ {
        Some(Color::DarkGray)
    } else {
        None
    }
}

/// First index `>= i` where `s` holds `c`, or `s.len()` when none does.
pub open spec fn find_from(s: Seq<char>, c: char, i: int) -> int
    decreases s.len() - i when 0 <= i <= s.len()
{
    if i >= s.len() {
        s.len() as int
    } else if s[i] == c {
        i
    } else {
        find_from(s, c, i + 1)
    }
}

/// The markup lexer: `{fg=<color> <text>}` becomes `<text>` with the
/// base style's foreground replaced; everything else keeps the base
/// style. A malformed token falls back to its literal characters,
/// unstyled — markup errors never fail a frame.
pub open spec fn spec_markup(s: Seq<char>, base: Style) -> Seq<(char, Style)>
    decreases s.len(),
{
    if s.len() == 0 {
        Seq::empty()
    } else {
        let sp = find_from(s, ' ', 0);
        let close = find_from(s, '}', 0);
        if starts_with(s, "{fg="@) && 4 <= sp && sp < close && 0 <= close && close < s.len() {
            match spec_color_of(s.subrange(4, sp)) {
                Some(c) => {
                    let sty = Style { fg: c, ..base };
                    s.subrange(sp + 1, close).map_values(|ch: char| (ch, sty)) + spec_markup(
                        s.skip(close + 1),
                        base,
                    )
                },
                None => seq![(s[0], base)] + spec_markup(s.drop_first(), base),
            }
        } else {
            seq![(s[0], base)] + spec_markup(s.drop_first(), base)
        }
    }
}

/// First position at or after `i` where `text` holds `c`, relative to
/// `i`; the suffix length when the character does not occur.
fn find_in_suffix(text: &Vec<char>, i: usize, c: char) -> (r: usize)
    requires
        i <= text@.len(),
    ensures
        r == find_from(text@.skip(i as int), c, 0),
{
    let n: usize = text.len();
    let mut j: usize = 0;
    while i + j < n
        invariant
            0 <= j,
            i + j <= n,
            n == text@.len(),
            find_from(text@.skip(i as int), c, 0) == find_from(text@.skip(i as int), c, j as int),
        decreases n - i - j,
    {
        proof {
            assert(text@.skip(i as int)[j as int] == text@[i as int + j]);
        }
        if text[i + j] == c {
            return j;
        }
        j = j + 1;
    }
    j
}

/// `text[from .. to]` equals the literal `lit`.
fn range_eq_str(text: &Vec<char>, from: usize, to: usize, lit: &str) -> (r: bool)
    requires
        from <= to <= text@.len(),
    ensures
        r == (text@.subrange(from as int, to as int) == lit@),
{
    let m: usize = lit.unicode_len();
    if to - from != m {
        proof {
            assert(text@.subrange(from as int, to as int).len() != lit@.len());
        }
        return false;
    }
    let mut j: usize = 0;
    while j < m
        invariant
            0 <= j <= m,
            m == lit@.len(),
            from + m == to <= text@.len(),
            forall|q: int| 0 <= q < j ==> text@[from + q] == lit@[q],
        decreases m - j,
    {
        if text[from + j] != lit.get_char(j) {
            proof {
                assert(text@.subrange(from as int, to as int)[j as int] != lit@[j as int]);
            }
            return false;
        }
        j = j + 1;
    }
    proof {
        assert(text@.subrange(from as int, to as int) =~= lit@);
    }
    true
}

/// The color a markup name denotes, if any.
fn color_lookup(text: &Vec<char>, from: usize, to: usize) -> (r: Option<Color>)
    requires
        from <= to <= text@.len(),
    ensures
        r == spec_color_of(text@.subrange(from as int, to as int)),
{
    if range_eq_str(text, from, to, "yellow") {
        Some(Color::Yellow)
    } else if range_eq_str(text, from, to, "green") {
        Some(Color::Green)
    } else if range_eq_str(text, from, to, "white") {
        Some(Color::White)
    } else if range_eq_str(text, from, to, "magenta") {
        Some(Color::Magenta)
    } else if range_eq_str(text, from, to, "cyan") {
        Some(Color::Cyan)
    } else if range_eq_str(text, from, to, "red") {
        Some(Color::Red)
    } else if range_eq_str(text, from, to, "blue") {
        Some(Color::Blue)
    } else if range_eq_str(text, from, to, "black") {
        Some(Color::Black)
    } else if range_eq_str(text, from, to, "gray") {
        Some(Color::Gray)
    } else if range_eq_str(text, from, to, "darkgray") {
        Some(Color::DarkGray)
    } else {
        None
    }
}

/// Lex `text` into styled characters, as `spec_markup` describes.
pub fn parse_markup(text: &Vec<char>, base: Style) -> (out: Vec<(char, Style)>)
    ensures
        out@ == spec_markup(text@, base),
{
    let ghost target = spec_markup(text@, base);
    let n: usize = text.len();
    let pat: Vec<char> = chars_of("{fg=");
    let mut out: Vec<(char, Style)> = Vec::new();
    let mut i: usize = 0;
    proof {
        assert(text@.skip(0) =~= text@);
        assert((Seq::<(char, Style)>::empty() + target) =~= target);
    }
    while i < n
        invariant
            0 <= i <= n,
            n == text@.len(),
            pat@ == "{fg="@,
            target == out@ + spec_markup(text@.skip(i as int), base),
        decreases n - i,
    {
        let ghost suf = text@.skip(i as int);
        let hit: bool = matches_at(text, i, &pat);
        let sp: usize = find_in_suffix(text, i, ' ');
        let close: usize = find_in_suffix(text, i, '}');
        let mut done: bool = false;
        if hit && 4 <= sp && sp < close && close < n - i {
            proof {
                assert(suf.subrange(4, sp as int) =~= text@.subrange(
                    i as int + 4,
                    i as int + sp as int,
                ));
            }
            let color: Option<Color> = color_lookup(text, i + 4, i + sp);
            match color {
                Some(c) => {
                    let sty: Style = Style { fg: c, ..base };
                    let ghost fpair = |ch: char| (ch, sty);
                    let ghost run = suf.subrange(sp as int + 1, close as int).map_values(fpair);
                    let ghost out0 = out@;
                    let mut q: usize = i + sp + 1;
                    while q < i + close
                        invariant
                            i + sp + 1 <= q <= i + close,
                            i + close < n == text@.len(),
                            suf == text@.skip(i as int),
                            run == suf.subrange(sp as int + 1, close as int).map_values(fpair),
                            fpair == (|ch: char| (ch, sty)),
                            out@ =~= out0 + run.take(q as int - i - sp - 1),
                        decreases i + close - q,
                    {
                        proof {
                            assert(run[q as int - i - sp - 1] == fpair(
                                suf.subrange(sp as int + 1, close as int)[q as int - i - sp - 1],
                            ));
                            assert(suf.subrange(sp as int + 1, close as int)[q as int - i - sp - 1]
                                == text@[q as int]);
                            assert((out0 + run.take(q as int - i - sp - 1)).push(
                                run[q as int - i - sp - 1],
                            ) =~= out0 + run.take(q as int - i - sp));
                        }
                        out.push((text[q], sty));
                        q = q + 1;
                    }
                    proof {
                        assert(run.take(close as int - sp as int - 1) =~= run);
                        assert(out@ =~= out0 + run);
                        assert(suf.skip(close as int + 1) =~= text@.skip(
                            i as int + close as int + 1,
                        ));
                        assert((out0 + spec_markup(suf, base)) =~= ((out0 + run) + spec_markup(
                            text@.skip(i as int + close as int + 1),
                            base,
                        )));
                    }
                    i = i + close + 1;
                    done = true;
                },
                None => {},
            }
        }
        if !done {
            proof {
                assert(suf[0] == text@[i as int]);
                assert(suf.drop_first() =~= text@.skip(i as int + 1));
                assert((out@ + spec_markup(suf, base)) =~= (out@.push((text@[i as int], base))
                    + spec_markup(text@.skip(i as int + 1), base)));
            }
            out.push((text[i], base));
            i = i + 1;
        }
    }
    proof {
        assert(text@.skip(n as int) =~= Seq::<char>::empty());
        assert((out@ + Seq::<(char, Style)>::empty()) =~= out@);
    }
    out
}

/// The logo asset's substitution pass: plain glyphs become colorized
/// markup tokens for the paragraph lexer.
pub open spec fn spec_logo(s: Seq<char>) -> Seq<char> {
    let s1 = spec_replace(s, "X"@, "{fg=yellow X}"@);
    let s2 = spec_replace(s1, "|-|"@, "|{fg=green -}|"@);
    let s3 = spec_replace(s2, ":"@, "{fg=green :}"@);
    let s4 = spec_replace(s3, "INNOPOLIS"@, "{fg=white I}{fg=green NN}{fg=white OPOLIS}"@);
    spec_replace(s4, "UNIVERSITY"@, "{fg=white UNIVERSITY}"@)
}

pub fn logo(asset: &Vec<char>) -> (out: Vec<char>)
    ensures
        out@ == spec_logo(asset@),
{
    let s1 = replace_all(asset, &chars_of("X"), &chars_of("{fg=yellow X}"));
    let s2 = replace_all(&s1, &chars_of("|-|"), &chars_of("|{fg=green -}|"));
    let s3 = replace_all(&s2, &chars_of(":"), &chars_of("{fg=green :}"));
    let s4 = replace_all(
        &s3,
        &chars_of("INNOPOLIS"),
        &chars_of("{fg=white I}{fg=green NN}{fg=white OPOLIS}"),
    );
    replace_all(&s4, &chars_of("UNIVERSITY"), &chars_of("{fg=white UNIVERSITY}"))
}

/// The uptime banner's substitution pass.
pub open spec fn spec_uptime(s: Seq<char>) -> Seq<char> {
    spec_replace(s, "#"@, "{fg=magenta #}"@)
}

pub fn uptime(asset: &Vec<char>) -> (out: Vec<char>)
    ensures
        out@ == spec_uptime(asset@),
{
    replace_all(asset, &chars_of("#"), &chars_of("{fg=magenta #}"))
}

} // verus!
