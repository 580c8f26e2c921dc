//! The server-built Apache ECharts chart: which series the option holds and
//! in what order, their colours, and the inline `<script>` that carries the
//! option JSON into the page.

use vstd::prelude::*;
use crate::text::{chars_of, push_str};

verus! {

/// The colour palette, cycled through by device lines.
pub open spec fn palette_view(i: nat) -> Seq<char> {
    let k = i % 8;
    if k == 0 {
        "#4cc2ff"@
    } else if k == 1 {
        "#7ce38b"@
    } else if k == 2 {
        "#f0b429"@
    } else if k == 3 {
        "#f47067"@
    } else if k == 4 {
        "#b083f0"@
    } else if k == 5 {
        "#39d5c8"@
    } else if k == 6 {
        "#f78bd0"@
    } else {
        "#a8b3c5"@
    }
}

/// The colour of the `i`-th device line (the palette repeats every 8).
pub fn palette_color(i: usize) -> (r: &'static str)
    ensures
        r@ == palette_view(i as nat),
{
    let k = i % 8;
    if k == 0 {
        "#4cc2ff"
    } else if k == 1 {
        "#7ce38b"
    } else if k == 2 {
        "#f0b429"
    } else if k == 3 {
        "#f47067"
    } else if k == 4 {
        "#b083f0"
    } else if k == 5 {
        "#39d5c8"
    } else if k == 6 {
        "#f78bd0"
    } else {
        "#a8b3c5"
    }
}

/// One series of the chart option.
#[derive(Debug, Clone, Copy, PartialEq, Eq, Structural)]
pub enum ChartLayer {
    /// The invisible `min` line the band is stacked on.
    BandLower,
    /// The shaded `min-max` band, stacked on the `min` line.
    BandSpan,
    /// The average line of the `device`-th series.
    Line { device: usize },
}

/// Whether the shaded min–max band is drawn: exactly one device, whose
/// min/max differ from its average somewhere.
pub open spec fn band_drawn(device_count: nat, single_spread: bool) -> bool {
    device_count == 1 && single_spread
}

/// The series of a chart, in drawing order: the band (when drawn) behind
/// one average line per device, in device order.
pub open spec fn layers_view(device_count: nat, single_spread: bool) -> Seq<ChartLayer> {
    (if band_drawn(device_count, single_spread) {
        seq![ChartLayer::BandLower, ChartLayer::BandSpan]
    } else {
        Seq::<ChartLayer>::empty()
    }) + Seq::new(device_count, |i: int| ChartLayer::Line { device: i as usize })
}

/// Plans the series of the chart option for `device_count` device series.
/// `single_spread` tells whether the only series (if there is just one)
/// has a point whose min or max differs from its average; raw points have
/// min == avg == max, and a band would be zero-height noise.
pub fn chart_layers(device_count: usize, single_spread: bool) -> (r: Vec<ChartLayer>)
    ensures
        r@ == layers_view(device_count as nat, single_spread),
{
    let mut out: Vec<ChartLayer> = Vec::new();
    if device_count == 1 && single_spread {
        out.push(ChartLayer::BandLower);
        out.push(ChartLayer::BandSpan);
    }
    let ghost base = out@;
    let mut i: usize = 0;
    while i < device_count
        invariant
            i <= device_count,
            out@ == base + Seq::new(i as nat, |k: int| ChartLayer::Line { device: k as usize }),
        decreases device_count - i,
    {
        out.push(ChartLayer::Line { device: i });
        i = i + 1;
        assert(out@ =~= base + Seq::new(i as nat, |k: int| ChartLayer::Line { device: k as usize }));
    }
    out
}

/// How many band series precede the device lines.
pub open spec fn band_series(device_count: nat, single_spread: bool) -> int {
    if band_drawn(device_count, single_spread) { 2 } else { 0 }
}

/// A chart has one line per device, plus the two band series exactly when
/// a single device with spread is plotted; the lines keep device order.
pub proof fn lemma_layers_shape(device_count: nat, single_spread: bool)
    ensures
        layers_view(device_count, single_spread).len() == device_count + band_series(
            device_count,
            single_spread,
        ),
        forall|i: int|
            0 <= i < device_count ==> #[trigger] layers_view(device_count, single_spread)[i
                + band_series(device_count, single_spread)] == (ChartLayer::Line {
                device: i as usize,
            }),
{
}

/// `s` with every non-overlapping occurrence of `pat`, scanned left to
/// right, replaced by `rep` (as `str::replace` does for a non-empty `pat`).
pub open spec fn replace_all(s: Seq<char>, pat: Seq<char>, rep: Seq<char>) -> Seq<char>
    decreases s.len(),
{
    if s.len() == 0 || pat.len() == 0 {
        s
    } else if s.len() >= pat.len() && s.take(pat.len() as int) == pat {
        rep + replace_all(s.skip(pat.len() as int), pat, rep)
    } else {
        seq![s[0]] + replace_all(s.skip(1), pat, rep)
    }
}

fn matches_at(s: &Vec<char>, i: usize, pat: &Vec<char>) -> (r: bool)
    requires
        i <= s.len(),
    ensures
        r == (s@.len() - i >= pat@.len() && s@.skip(i as int).take(pat@.len() as int) == pat@),
{
    if s.len() - i < pat.len() {
        return false;
    }
    let mut j: usize = 0;
    while j < pat.len()
        invariant
            j <= pat.len(),
            i + pat.len() <= s.len(),
            forall|k: int| 0 <= k < j ==> s@[i + k] == pat@[k],
        decreases pat.len() - j,
    {
        if s[i + j] != pat[j] {
            assert(s@.skip(i as int).take(pat@.len() as int)[j as int] != pat@[j as int]);
            return false;
        }
        j = j + 1;
    }
    assert(s@.skip(i as int).take(pat@.len() as int) =~= pat@);
    true
}

/// Replaces every occurrence of `pat` in `s` by `rep`.
pub fn replace_str(s: &str, pat: &str, rep: &str) -> (r: String)
    ensures
        r@ == replace_all(s@, pat@, rep@),
{
    let cs = chars_of(s);
    let ps = chars_of(pat);
    let mut out = String::new();
    if ps.len() == 0 {
        push_str(&mut out, s);
        return out;
    }
    let mut i: usize = 0;
    assert(s@.skip(0) =~= s@);
    while i < cs.len()
        invariant
            cs@ == s@,
            ps@ == pat@,
            ps@.len() > 0,
            i <= cs.len(),
            out@ + replace_all(s@.skip(i as int), pat@, rep@) == replace_all(s@, pat@, rep@),
        decreases cs.len() - i,
    {
        let ghost rest = s@.skip(i as int);
        if matches_at(&cs, i, &ps) {
            assert(rest.skip(pat@.len() as int) =~= s@.skip(i + pat@.len()));
            push_str(&mut out, rep);
            i = i + ps.len();
            assert(out@ + replace_all(s@.skip(i as int), pat@, rep@) =~= replace_all(s@, pat@, rep@));
        } else {
            assert(rest.skip(1) =~= s@.skip(i + 1));
            assert(rest[0] == cs@[i as int]);
            crate::text::push_char(&mut out, cs[i]);
            i = i + 1;
            assert(out@ + replace_all(s@.skip(i as int), pat@, rep@) =~= replace_all(s@, pat@, rep@));
        }
    }
    assert(s@.skip(i as int) =~= Seq::<char>::empty());
    assert(out@ =~= replace_all(s@, pat@, rep@));
    out
}

/// `</` at position `i`.
pub open spec fn close_tag_at(s: Seq<char>, i: int) -> bool {
    0 <= i && i + 1 < s.len() && s[i] == '<' && s[i + 1] == '/'
}

/// `<!--` at position `i`.
pub open spec fn comment_open_at(s: Seq<char>, i: int) -> bool {
    0 <= i && i + 3 < s.len() && s[i] == '<' && s[i + 1] == '!' && s[i + 2] == '-' && s[i + 3]
        == '-'
}

pub open spec fn close_pat() -> Seq<char> {
    seq!['<', '/']
}

pub open spec fn close_rep() -> Seq<char> {
    seq!['<', '\\', '/']
}

pub open spec fn comment_pat() -> Seq<char> {
    seq!['<', '!', '-', '-']
}

pub open spec fn comment_rep() -> Seq<char> {
    seq!['<', '\\', '!', '-', '-']
}

/// JSON text made safe to sit inside an inline `<script>` element: `</`
/// becomes `<\/` and `<!--` becomes `<\!--` (the same strings in
/// JavaScript).
pub open spec fn script_safe_view(s: Seq<char>) -> Seq<char> {
    replace_all(replace_all(s, close_pat(), close_rep()), comment_pat(), comment_rep())
}

/// A replacement that starts with the pattern's first character keeps the
/// first character of a non-empty input.
proof fn lemma_replace_first(s: Seq<char>, pat: Seq<char>, rep: Seq<char>)
    requires
        s.len() > 0,
        pat.len() > 0,
        rep.len() > 0,
        rep[0] == pat[0],
    ensures
        replace_all(s, pat, rep).len() > 0,
        replace_all(s, pat, rep)[0] == s[0],
{
    if s.len() >= pat.len() && s.take(pat.len() as int) == pat {
        assert(s.take(pat.len() as int)[0] == s[0]);
    }
}

/// A replacement at least as long as its pattern never shortens the text.
proof fn lemma_replace_len(s: Seq<char>, pat: Seq<char>, rep: Seq<char>)
    requires
        pat.len() > 0,
        rep.len() >= pat.len(),
    ensures
        replace_all(s, pat, rep).len() >= s.len(),
    decreases s.len(),
{
    if s.len() > 0 {
        if s.len() >= pat.len() && s.take(pat.len() as int) == pat {
            lemma_replace_len(s.skip(pat.len() as int), pat, rep);
        } else {
            lemma_replace_len(s.skip(1), pat, rep);
        }
    }
}

/// After escaping `</`, no `</` is left.
proof fn lemma_no_close_after_escape(s: Seq<char>)
    ensures
        forall|i: int| !close_tag_at(replace_all(s, close_pat(), close_rep()), i),
    decreases s.len(),
{
    let r = replace_all(s, close_pat(), close_rep());
    if s.len() > 0 {
        if s.len() >= 2 && s.take(2) == close_pat() {
            let rest = s.skip(2);
            lemma_no_close_after_escape(rest);
            let rr = replace_all(rest, close_pat(), close_rep());
            assert(r =~= close_rep() + rr);
            assert forall|i: int| !close_tag_at(r, i) by {
                if i >= 3 && close_tag_at(r, i) {
                    assert(r[i] == rr[i - 3]);
                    assert(r[i + 1] == rr[i - 2]);
                    assert(!close_tag_at(rr, i - 3));
                }
            }
        } else {
            let rest = s.skip(1);
            lemma_no_close_after_escape(rest);
            let rr = replace_all(rest, close_pat(), close_rep());
            assert(r =~= seq![s[0]] + rr);
            assert forall|i: int| !close_tag_at(r, i) by {
                if i == 0 && close_tag_at(r, i) {
                    lemma_replace_first(rest, close_pat(), close_rep());
                    assert(rr[0] == rest[0]);
                    assert(s.take(2) =~= close_pat());
                }
                if i >= 1 && close_tag_at(r, i) {
                    assert(r[i] == rr[i - 1]);
                    assert(r[i + 1] == rr[i]);
                    assert(!close_tag_at(rr, i - 1));
                }
            }
        }
    }
}

/// Input that does not start with `<` keeps its first character in front of
/// the rest's escaping.
proof fn lemma_comment_unfold(s: Seq<char>)
    requires
        s.len() > 0,
        s[0] != '<',
    ensures
        replace_all(s, comment_pat(), comment_rep()) == seq![s[0]] + replace_all(
            s.skip(1),
            comment_pat(),
            comment_rep(),
        ),
{
    if s.len() >= 4 {
        assert(s.take(4)[0] != comment_pat()[0]);
    }
}

/// After escaping `<!--`, no `<!--` is left.
proof fn lemma_no_comment_after_escape(s: Seq<char>)
    ensures
        forall|i: int| !comment_open_at(replace_all(s, comment_pat(), comment_rep()), i),
    decreases s.len(),
{
    let r = replace_all(s, comment_pat(), comment_rep());
    if s.len() > 0 {
        if s.len() >= 4 && s.take(4) == comment_pat() {
            let rest = s.skip(4);
            lemma_no_comment_after_escape(rest);
            let rr = replace_all(rest, comment_pat(), comment_rep());
            assert(r =~= comment_rep() + rr);
            assert forall|i: int| !comment_open_at(r, i) by {
                if i >= 5 && comment_open_at(r, i) {
                    assert(r[i] == rr[i - 5]);
                    assert(r[i + 1] == rr[i - 4]);
                    assert(r[i + 2] == rr[i - 3]);
                    assert(r[i + 3] == rr[i - 2]);
                    assert(!comment_open_at(rr, i - 5));
                }
            }
        } else {
            let rest = s.skip(1);
            lemma_no_comment_after_escape(rest);
            let rr = replace_all(rest, comment_pat(), comment_rep());
            assert(r =~= seq![s[0]] + rr);
            assert forall|i: int| !comment_open_at(r, i) by {
                if i == 0 && comment_open_at(r, i) {
                    // r = s0 ++ escape(s1 ..): the next three characters are
                    // `!--`, none of them `<`, so they are copied from `s`.
                    assert(rr[0] == '!');
                    lemma_replace_len(rest, comment_pat(), comment_rep());
                    lemma_replace_first(rest, comment_pat(), comment_rep());
                    assert(rest[0] == '!');
                    lemma_comment_unfold(rest);
                    let r1 = rest.skip(1);
                    let rr1 = replace_all(r1, comment_pat(), comment_rep());
                    assert(rr =~= seq![rest[0]] + rr1);
                    assert(rr1[0] == '-');
                    assert(r1.len() > 0) by {
                        if r1.len() == 0 {
                            assert(rr1.len() == 0);
                        }
                    }
                    lemma_replace_first(r1, comment_pat(), comment_rep());
                    assert(r1[0] == '-');
                    lemma_comment_unfold(r1);
                    let r2 = r1.skip(1);
                    let rr2 = replace_all(r2, comment_pat(), comment_rep());
                    assert(rr1 =~= seq![r1[0]] + rr2);
                    assert(rr2[0] == '-');
                    assert(r2.len() > 0) by {
                        if r2.len() == 0 {
                            assert(rr2.len() == 0);
                        }
                    }
                    lemma_replace_first(r2, comment_pat(), comment_rep());
                    assert(r2[0] == '-');
                    assert(s[0] == '<');
                    assert(s[1] == rest[0]);
                    assert(s[2] == r1[0]);
                    assert(s[3] == r2[0]);
                    assert(s.take(4) =~= comment_pat());
                }
                if i >= 1 && comment_open_at(r, i) {
                    assert(r[i] == rr[i - 1]);
                    assert(r[i + 1] == rr[i]);
                    assert(r[i + 2] == rr[i + 1]);
                    assert(r[i + 3] == rr[i + 2]);
                    assert(!comment_open_at(rr, i - 1));
                }
            }
        }
    }
}

/// Escaping `<!--` does not bring back a `</` that was not there.
proof fn lemma_comment_escape_keeps_no_close(s: Seq<char>)
    requires
        forall|i: int| !close_tag_at(s, i),
    ensures
        forall|i: int| !close_tag_at(replace_all(s, comment_pat(), comment_rep()), i),
    decreases s.len(),
{
    let r = replace_all(s, comment_pat(), comment_rep());
    if s.len() > 0 {
        if s.len() >= 4 && s.take(4) == comment_pat() {
            let rest = s.skip(4);
            assert forall|i: int| !close_tag_at(rest, i) by {
                if close_tag_at(rest, i) {
                    assert(close_tag_at(s, i + 4));
                }
            }
            lemma_comment_escape_keeps_no_close(rest);
            let rr = replace_all(rest, comment_pat(), comment_rep());
            assert(r =~= comment_rep() + rr);
            assert forall|i: int| !close_tag_at(r, i) by {
                if i >= 5 && close_tag_at(r, i) {
                    assert(r[i] == rr[i - 5]);
                    assert(r[i + 1] == rr[i - 4]);
                    assert(!close_tag_at(rr, i - 5));
                }
            }
        } else {
            let rest = s.skip(1);
            assert forall|i: int| !close_tag_at(rest, i) by {
                if close_tag_at(rest, i) {
                    assert(close_tag_at(s, i + 1));
                }
            }
            lemma_comment_escape_keeps_no_close(rest);
            let rr = replace_all(rest, comment_pat(), comment_rep());
            assert(r =~= seq![s[0]] + rr);
            assert forall|i: int| !close_tag_at(r, i) by {
                if i == 0 && close_tag_at(r, i) {
                    lemma_replace_first(rest, comment_pat(), comment_rep());
                    assert(close_tag_at(s, 0));
                }
                if i >= 1 && close_tag_at(r, i) {
                    assert(r[i] == rr[i - 1]);
                    assert(r[i + 1] == rr[i]);
                    assert(!close_tag_at(rr, i - 1));
                }
            }
        }
    }
}

/// Script-safe JSON never holds `</` (which could end the script element)
/// nor `<!--` (which could open a comment-like context).
pub proof fn lemma_script_safe(s: Seq<char>)
    ensures
        forall|i: int| !close_tag_at(script_safe_view(s), i),
        forall|i: int| !comment_open_at(script_safe_view(s), i),
{
    lemma_no_close_after_escape(s);
    lemma_comment_escape_keeps_no_close(replace_all(s, close_pat(), close_rep()));
    lemma_no_comment_after_escape(replace_all(s, close_pat(), close_rep()));
}

/// Escapes JSON text for embedding inside an inline `<script>` element.
pub fn script_safe(text: &str) -> (r: String)
    ensures
        r@ == script_safe_view(text@),
{
    proof {
        reveal_strlit("</");
        reveal_strlit("<\\/");
        reveal_strlit("<!--");
        reveal_strlit("<\\!--");
        assert("</"@ =~= close_pat());
        assert("<\\/"@ =~= close_rep());
        assert("<!--"@ =~= comment_pat());
        assert("<\\!--"@ =~= comment_rep());
    }
    let once = replace_str(text, "</", "<\\/");
    replace_str(once.as_str(), "<!--", "<\\!--")
}

/// `<` followed by a backslash and `c` at position `i`.
pub open spec fn escaped_at(s: Seq<char>, i: int, c: char) -> bool {
    0 <= i && i + 2 < s.len() && s[i] == '<' && s[i + 1] == '\\' && s[i + 2] == c
}

/// Undoes the escaping of script-safe text: `<\!--` goes back to `<!--`,
/// then `<\/` back to `</`.
pub open spec fn script_unescape_view(s: Seq<char>) -> Seq<char> {
    replace_all(replace_all(s, comment_rep(), comment_pat()), close_rep(), close_pat())
}

/// Text that does not start with `<` keeps its first character in front of
/// the rest's `</` escaping.
proof fn lemma_close_unfold(s: Seq<char>)
    requires
        s.len() > 0,
        s[0] != '<',
    ensures
        replace_all(s, close_pat(), close_rep()) == seq![s[0]] + replace_all(
            s.skip(1),
            close_pat(),
            close_rep(),
        ),
{
    if s.len() >= 2 {
        assert(s.take(2)[0] != close_pat()[0]);
    }
}

/// Turning `<\/` back into `</` undoes the `</` escaping of any text that
/// holds no `<\/` of its own.
proof fn lemma_close_unescape(t: Seq<char>)
    requires
        forall|i: int| !escaped_at(t, i, '/'),
    ensures
        replace_all(replace_all(t, close_pat(), close_rep()), close_rep(), close_pat()) == t,
    decreases t.len(),
{
    let e = replace_all(t, close_pat(), close_rep());
    if t.len() > 0 {
        if t.len() >= 2 && t.take(2) == close_pat() {
            let rest = t.skip(2);
            assert forall|i: int| !escaped_at(rest, i, '/') by {
                if escaped_at(rest, i, '/') {
                    assert(escaped_at(t, i + 2, '/'));
                }
            }
            lemma_close_unescape(rest);
            let er = replace_all(rest, close_pat(), close_rep());
            assert(e =~= close_rep() + er);
            assert(e.take(3) =~= close_rep());
            assert(e.skip(3) =~= er);
            assert(t =~= close_pat() + rest);
        } else {
            let rest = t.skip(1);
            assert forall|i: int| !escaped_at(rest, i, '/') by {
                if escaped_at(rest, i, '/') {
                    assert(escaped_at(t, i + 1, '/'));
                }
            }
            lemma_close_unescape(rest);
            let er = replace_all(rest, close_pat(), close_rep());
            assert(e =~= seq![t[0]] + er);
            if e.len() >= 3 && e.take(3) == close_rep() {
                assert(e.take(3)[0] == '<' && e.take(3)[1] == '\\' && e.take(3)[2] == '/');
                assert(rest.len() > 0) by {
                    if rest.len() == 0 {
                        assert(er.len() == 0);
                    }
                }
                lemma_replace_first(rest, close_pat(), close_rep());
                assert(rest[0] == '\\');
                lemma_close_unfold(rest);
                let r1 = rest.skip(1);
                let er1 = replace_all(r1, close_pat(), close_rep());
                assert(er =~= seq![rest[0]] + er1);
                assert(r1.len() > 0) by {
                    if r1.len() == 0 {
                        assert(er1.len() == 0);
                    }
                }
                lemma_replace_first(r1, close_pat(), close_rep());
                assert(escaped_at(t, 0, '/'));
            }
            assert(e.skip(1) =~= er);
            assert(t =~= seq![t[0]] + rest);
        }
    }
}

/// Turning `<\!--` back into `<!--` undoes the `<!--` escaping of any text
/// that holds no `<\!` of its own.
proof fn lemma_comment_unescape(u: Seq<char>)
    requires
        forall|i: int| !escaped_at(u, i, '!'),
    ensures
        replace_all(replace_all(u, comment_pat(), comment_rep()), comment_rep(), comment_pat())
            == u,
    decreases u.len(),
{
    let e = replace_all(u, comment_pat(), comment_rep());
    if u.len() > 0 {
        if u.len() >= 4 && u.take(4) == comment_pat() {
            let rest = u.skip(4);
            assert forall|i: int| !escaped_at(rest, i, '!') by {
                if escaped_at(rest, i, '!') {
                    assert(escaped_at(u, i + 4, '!'));
                }
            }
            lemma_comment_unescape(rest);
            let er = replace_all(rest, comment_pat(), comment_rep());
            assert(e =~= comment_rep() + er);
            assert(e.take(5) =~= comment_rep());
            assert(e.skip(5) =~= er);
            assert(u =~= comment_pat() + rest);
        } else {
            let rest = u.skip(1);
            assert forall|i: int| !escaped_at(rest, i, '!') by {
                if escaped_at(rest, i, '!') {
                    assert(escaped_at(u, i + 1, '!'));
                }
            }
            lemma_comment_unescape(rest);
            let er = replace_all(rest, comment_pat(), comment_rep());
            assert(e =~= seq![u[0]] + er);
            if e.len() >= 5 && e.take(5) == comment_rep() {
                assert(e.take(5)[0] == '<' && e.take(5)[1] == '\\' && e.take(5)[2] == '!');
                assert(rest.len() > 0) by {
                    if rest.len() == 0 {
                        assert(er.len() == 0);
                    }
                }
                lemma_replace_first(rest, comment_pat(), comment_rep());
                assert(rest[0] == '\\');
                lemma_comment_unfold(rest);
                let r1 = rest.skip(1);
                let er1 = replace_all(r1, comment_pat(), comment_rep());
                assert(er =~= seq![rest[0]] + er1);
                assert(r1.len() > 0) by {
                    if r1.len() == 0 {
                        assert(er1.len() == 0);
                    }
                }
                lemma_replace_first(r1, comment_pat(), comment_rep());
                assert(escaped_at(u, 0, '!'));
            }
            assert(e.skip(1) =~= er);
            assert(u =~= seq![u[0]] + rest);
        }
    }
}

/// Escaping `</` brings in no `<\!`.
proof fn lemma_close_escape_keeps_no_bang(t: Seq<char>)
    requires
        forall|i: int| !escaped_at(t, i, '!'),
    ensures
        forall|i: int| !escaped_at(replace_all(t, close_pat(), close_rep()), i, '!'),
    decreases t.len(),
{
    let r = replace_all(t, close_pat(), close_rep());
    if t.len() > 0 {
        if t.len() >= 2 && t.take(2) == close_pat() {
            let rest = t.skip(2);
            assert forall|i: int| !escaped_at(rest, i, '!') by {
                if escaped_at(rest, i, '!') {
                    assert(escaped_at(t, i + 2, '!'));
                }
            }
            lemma_close_escape_keeps_no_bang(rest);
            let rr = replace_all(rest, close_pat(), close_rep());
            assert(r =~= close_rep() + rr);
            assert forall|i: int| !escaped_at(r, i, '!') by {
                if i >= 3 && escaped_at(r, i, '!') {
                    assert(r[i] == rr[i - 3]);
                    assert(r[i + 1] == rr[i - 2]);
                    assert(r[i + 2] == rr[i - 1]);
                    assert(!escaped_at(rr, i - 3, '!'));
                }
            }
        } else {
            let rest = t.skip(1);
            assert forall|i: int| !escaped_at(rest, i, '!') by {
                if escaped_at(rest, i, '!') {
                    assert(escaped_at(t, i + 1, '!'));
                }
            }
            lemma_close_escape_keeps_no_bang(rest);
            let rr = replace_all(rest, close_pat(), close_rep());
            assert(r =~= seq![t[0]] + rr);
            assert forall|i: int| !escaped_at(r, i, '!') by {
                if i == 0 && escaped_at(r, i, '!') {
                    assert(rest.len() > 0) by {
                        if rest.len() == 0 {
                            assert(rr.len() == 0);
                        }
                    }
                    lemma_replace_first(rest, close_pat(), close_rep());
                    assert(rest[0] == '\\');
                    lemma_close_unfold(rest);
                    let r1 = rest.skip(1);
                    let rr1 = replace_all(r1, close_pat(), close_rep());
                    assert(rr =~= seq![rest[0]] + rr1);
                    assert(r1.len() > 0) by {
                        if r1.len() == 0 {
                            assert(rr1.len() == 0);
                        }
                    }
                    lemma_replace_first(r1, close_pat(), close_rep());
                    assert(escaped_at(t, 0, '!'));
                }
                if i >= 1 && escaped_at(r, i, '!') {
                    assert(r[i] == rr[i - 1]);
                    assert(r[i + 1] == rr[i]);
                    assert(r[i + 2] == rr[i + 1]);
                    assert(!escaped_at(rr, i - 1, '!'));
                }
            }
        }
    }
}

/// Unescaping script-safe text gives the text back, for any text that holds
/// neither `<\/` nor `<\!` (JSON text never does): read as JavaScript, the
/// escaped text denotes the same value.
pub proof fn lemma_script_safe_unescape(t: Seq<char>)
    requires
        forall|i: int| !escaped_at(t, i, '/'),
        forall|i: int| !escaped_at(t, i, '!'),
    ensures
        script_unescape_view(script_safe_view(t)) == t,
{
    lemma_close_escape_keeps_no_bang(t);
    lemma_comment_unescape(replace_all(t, close_pat(), close_rep()));
    lemma_close_unescape(t);
}

#[verifier::external_type_specification]
#[verifier::external_body]
pub struct ExJsonValue(serde_json::Value);

/// The compact JSON text of a value, as serde_json writes it.
pub uninterp spec fn json_text_of(value: serde_json::Value) -> Seq<char>;

/// `serde_json::Value`'s `Display` (compact JSON), through `ToString`. The
/// text is named `json_text_of(value)`. One more fact is claimed, from
/// serde_json's writer: a backslash that follows `<` always opens one of its
/// escapes (`\"`, `\\`, `\b`, `\f`, `\n`, `\r`, `\t`, `\u`), so the text
/// holds neither `<\/` nor `<\!`.
#[verifier::external_body]
fn json_text(value: &serde_json::Value) -> (r: String)
    ensures
        r@ == json_text_of(*value),
        forall|i: int| !escaped_at(r@, i, '/'),
        forall|i: int| !escaped_at(r@, i, '!'),
{
    value.to_string()
}

/// Serializes JSON for embedding inside an inline `<script>` element.
///
/// `</` must not appear literally inside a script element (it could terminate
/// the script or open a comment-like context), so it is escaped to `<\/`,
/// which is an identical string in JavaScript. `<!--` is broken up the same
/// way.
pub fn script_safe_json(value: &serde_json::Value) -> (r: String)
    ensures
        r@ == script_safe_view(json_text_of(*value)),
        script_unescape_view(r@) == json_text_of(*value),
        forall|i: int| !close_tag_at(r@, i),
        forall|i: int| !comment_open_at(r@, i),
{
    let text = json_text(value);
    let r = script_safe(text.as_str());
    proof {
        lemma_script_safe(text@);
        lemma_script_safe_unescape(text@);
    }
    r
}

/// The inline script that (re)draws the chart with the given option JSON:
/// it disposes any previous chart on `#chart-canvas`, initialises a new one,
/// sets the option, and binds a single window resize handler.
pub open spec fn chart_script_view(option_json: Seq<char>) -> Seq<char> {
    "<script>(function(){var el=document.getElementById('chart-canvas');if(!el||typeof echarts==='undefined')return;var prev=echarts.getInstanceByDom(el);if(prev)prev.dispose();var chart=echarts.init(el);chart.setOption("@
        + option_json
        + ");if(!window.__dashResizeBound){window.__dashResizeBound=true;window.addEventListener('resize',function(){var e=document.getElementById('chart-canvas');if(!e)return;var i=echarts.getInstanceByDom(e);if(i)i.resize();});}})();</script>"@
}

/// Wraps script-safe option JSON in the chart's inline `<script>` element.
pub fn chart_script(option_json: &str) -> (r: String)
    ensures
        r@ == chart_script_view(option_json@),
{
    let mut out = String::new();
    push_str(
        &mut out,
        "<script>(function(){var el=document.getElementById('chart-canvas');if(!el||typeof echarts==='undefined')return;var prev=echarts.getInstanceByDom(el);if(prev)prev.dispose();var chart=echarts.init(el);chart.setOption(",
    );
    push_str(&mut out, option_json);
    push_str(
        &mut out,
        ");if(!window.__dashResizeBound){window.__dashResizeBound=true;window.addEventListener('resize',function(){var e=document.getElementById('chart-canvas');if(!e)return;var i=echarts.getInstanceByDom(e);if(i)i.resize();});}})();</script>",
    );
    out
}

/// The name a series carries in the option's legend and tooltip.
pub open spec fn layer_name_view(layer: ChartLayer, device_ids: Seq<Seq<char>>) -> Seq<char> {
    match layer {
        ChartLayer::BandLower => "min"@,
        ChartLayer::BandSpan => "min-max"@,
        ChartLayer::Line { device } => device_ids[device as int],
    }
}

/// The name of a series: `min`, `min-max`, or its device id.
pub fn layer_name(layer: ChartLayer, device_ids: &[String]) -> (r: String)
    requires
        layer matches ChartLayer::Line { device } ==> device < device_ids.len(),
    ensures
        r@ == layer_name_view(layer, crate::text::views_of(device_ids@)),
{
    match layer {
        ChartLayer::BandLower => {
            let mut s = String::new();
            push_str(&mut s, "min");
            s
        },
        ChartLayer::BandSpan => {
            let mut s = String::new();
            push_str(&mut s, "min-max");
            s
        },
        ChartLayer::Line { device } => device_ids[device].clone(),
    }
}

} // verus!
