//! Client method planning for HTTP routes: route templates, path parameters and method names.
//!
//! A route template such as `/users/{id}/posts/{slug}` becomes a format string with one
//! positional placeholder per hole (`{}/users/{}/posts/{}`, the leading `{}` standing for the
//! client's base URL) and the list of hole names. Each hole then becomes a client parameter,
//! typed from the handler's `Path` extractor where it can be mapped and as `String` otherwise.
use vstd::prelude::*;

use crate::text::{decimal, decimal_string, owned, push_char, text_views};

verus! {

/// Up to this many holes each become a named parameter; more are passed as one tuple `path`.
pub const MAX_NAMED_PATH_PARAMS: usize = 3;

// ---------------------------------------------------------------------------------------------
// Route templates
// ---------------------------------------------------------------------------------------------

/// The number of characters of `t` before its first `}` (all of `t` when there is none).
pub open spec fn close_at(t: Seq<char>) -> nat
    decreases t.len(),
{
    if t.len() == 0 || t[0] == '}' {
        0
    } else {
        1 + close_at(t.drop_first())
    }
}

/// The format text (without the leading base placeholder) and the hole names of a template.
///
/// `{{` and `}}` stay escaped braces; a lone `}` is escaped too; `{name}` becomes a positional
/// placeholder and records `name` (an unterminated `{name` runs to the end of the template);
/// every other character is copied.
pub open spec fn scan_template(s: Seq<char>) -> (Seq<char>, Seq<Seq<char>>)
    decreases s.len(),
{
    if s.len() == 0 {
        (Seq::empty(), Seq::empty())
    } else if s[0] == '{' && s.len() >= 2 && s[1] == '{' {
        let r = scan_template(s.skip(2));
        (seq!['{', '{'] + r.0, r.1)
    } else if s[0] == '{' {
        let n = close_at(s.skip(1)) as int;
        let rest = if 2 + n <= s.len() {
            s.skip(2 + n)
        } else {
            Seq::empty()
        };
        let r = scan_template(rest);
        (seq!['{', '}'] + r.0, seq![s.subrange(1, 1 + n)] + r.1)
    } else if s[0] == '}' && s.len() >= 2 && s[1] == '}' {
        let r = scan_template(s.skip(2));
        (seq!['}', '}'] + r.0, r.1)
    } else if s[0] == '}' {
        let r = scan_template(s.skip(1));
        (seq!['}', '}'] + r.0, r.1)
    } else {
        let r = scan_template(s.skip(1));
        (seq![s[0]] + r.0, r.1)
    }
}

/// The format string of a template: the base placeholder, then the scanned format text.
pub open spec fn template_format(s: Seq<char>) -> Seq<char> {
    seq!['{', '}'] + scan_template(s).0
}

/// The hole names of a template, in order.
pub open spec fn template_holes(s: Seq<char>) -> Seq<Seq<char>> {
    scan_template(s).1
}

proof fn lemma_close_at(t: Seq<char>, m: int)
    requires
        0 <= m <= t.len(),
        forall|k: int| 0 <= k < m ==> t[k] != '}',
        m == t.len() || t[m] == '}',
    ensures
        close_at(t) == m,
    decreases m,
{
    if m > 0 {
        lemma_close_at(t.drop_first(), m - 1);
    }
}

proof fn lemma_brace_free_scan(s: Seq<char>)
    requires
        forall|i: int| 0 <= i < s.len() ==> s[i] != '{' && s[i] != '}',
    ensures
        scan_template(s).0 == s,
        scan_template(s).1 == Seq::<Seq<char>>::empty(),
    decreases s.len(),
{
    if s.len() > 0 {
        lemma_brace_free_scan(s.skip(1));
        assert(seq![s[0]] + s.skip(1) =~= s);
    }
}

/// A template without braces is copied verbatim after the base placeholder and has no holes.
pub proof fn law_brace_free_template_is_verbatim(s: Seq<char>)
    requires
        forall|i: int| 0 <= i < s.len() ==> s[i] != '{' && s[i] != '}',
    ensures
        template_format(s) == seq!['{', '}'] + s,
        template_holes(s) == Seq::<Seq<char>>::empty(),
{
    lemma_brace_free_scan(s);
}

/// Whether every brace of a template belongs to a closed `{hole}` whose name holds no brace.
pub open spec fn holes_well_formed(t: Seq<char>) -> bool
    decreases t.len(),
{
    if t.len() == 0 {
        true
    } else if t[0] == '{' {
        let n = close_at(t.skip(1)) as int;
        &&& 1 + n < t.len()
        &&& forall|k: int| 1 <= k < 1 + n ==> t[k] != '{'
        &&& holes_well_formed(t.skip(2 + n))
    } else if t[0] == '}' {
        false
    } else {
        holes_well_formed(t.skip(1))
    }
}

/// What formatting `f` with positional arguments gives: `{}` takes the next argument, `{{` and
/// `}}` are literal braces, and every other character is copied.
pub open spec fn format_positional(f: Seq<char>, args: Seq<Seq<char>>) -> Seq<char>
    decreases f.len(),
{
    if f.len() == 0 {
        Seq::empty()
    } else if f.len() >= 2 && f[0] == '{' && f[1] == '}' {
        let arg = if args.len() > 0 {
            args[0]
        } else {
            Seq::empty()
        };
        arg + format_positional(f.skip(2), args.drop_first())
    } else if f.len() >= 2 && f[0] == '{' && f[1] == '{' {
        seq!['{'] + format_positional(f.skip(2), args)
    } else if f.len() >= 2 && f[0] == '}' && f[1] == '}' {
        seq!['}'] + format_positional(f.skip(2), args)
    } else {
        seq![f[0]] + format_positional(f.skip(1), args)
    }
}

/// Each hole name back in its braces.
pub open spec fn braced(holes: Seq<Seq<char>>) -> Seq<Seq<char>> {
    holes.map_values(|h: Seq<char>| seq!['{'] + h + seq!['}'])
}

proof fn lemma_close_at_bounds(t: Seq<char>)
    ensures
        close_at(t) <= t.len(),
        close_at(t) < t.len() ==> t[close_at(t) as int] == '}',
        forall|k: int| 0 <= k < close_at(t) ==> t[k] != '}',
    decreases t.len(),
{
    if t.len() > 0 && t[0] != '}' {
        lemma_close_at_bounds(t.drop_first());
        assert forall|k: int| 0 <= k < close_at(t) implies t[k] != '}' by {
            if k > 0 {
                assert(t[k] == t.drop_first()[k - 1]);
            }
        }
    }
}

proof fn lemma_scan_rebuilds(t: Seq<char>)
    requires
        holes_well_formed(t),
    ensures
        format_positional(scan_template(t).0, braced(scan_template(t).1)) == t,
    decreases t.len(),
{
    if t.len() == 0 {
        return;
    }
    let r = if t[0] == '{' {
        let n = close_at(t.skip(1)) as int;
        scan_template(t.skip(2 + n))
    } else {
        scan_template(t.skip(1))
    };
    if t[0] == '{' {
        let n = close_at(t.skip(1)) as int;
        lemma_close_at_bounds(t.skip(1));
        assert(t.skip(1)[n] == t[1 + n]);
        if t.len() >= 2 && t[1] == '{' {
            assert(n >= 1) by {
                assert(t.skip(1)[0] == t[1]);
            }
            assert(false);
        }
        let rest = t.skip(2 + n);
        lemma_scan_rebuilds(rest);
        let h = t.subrange(1, 1 + n);
        assert(scan_template(t) == (seq!['{', '}'] + r.0, seq![h] + r.1));
        let f = seq!['{', '}'] + r.0;
        assert(f.skip(2) =~= r.0);
        assert(braced(seq![h] + r.1) =~= seq![seq!['{'] + h + seq!['}']] + braced(r.1));
        assert(braced(seq![h] + r.1).drop_first() =~= braced(r.1));
        assert(t =~= seq!['{'] + h + seq!['}'] + rest);
    } else {
        lemma_scan_rebuilds(t.skip(1));
        assert(scan_template(t) == (seq![t[0]] + r.0, r.1));
        assert((seq![t[0]] + r.0).skip(1) =~= r.0);
        assert(t =~= seq![t[0]] + t.skip(1));
    }
}

/// Formatting a template's format string with the base URL and each hole back in its braces
/// gives the base URL followed by the template, when every brace of the template belongs to a
/// hole.
pub proof fn law_template_round_trip(base: Seq<char>, t: Seq<char>)
    requires
        holes_well_formed(t),
    ensures
        format_positional(template_format(t), seq![base] + braced(template_holes(t))) == base + t,
{
    lemma_scan_rebuilds(t);
    let f = template_format(t);
    let args = seq![base] + braced(template_holes(t));
    assert(f.skip(2) =~= scan_template(t).0);
    assert(args.drop_first() =~= braced(template_holes(t)));
}

/// Whether a text holds no brace.
pub open spec fn brace_free(s: Seq<char>) -> bool {
    forall|i: int| 0 <= i < s.len() ==> s[i] != '{' && s[i] != '}'
}

/// The template `segs[0] + "{" + holes[0] + "}" + segs[1] + ... + "{" + holes[n-1] + "}" + segs[n]`.
pub open spec fn template_of(segs: Seq<Seq<char>>, holes: Seq<Seq<char>>) -> Seq<char>
    decreases holes.len(),
{
    if holes.len() == 0 {
        if segs.len() > 0 {
            segs[0]
        } else {
            Seq::empty()
        }
    } else {
        segs[0] + seq!['{'] + holes[0] + seq!['}'] + template_of(segs.drop_first(), holes.drop_first())
    }
}

/// The texts `segs` joined by positional placeholders `{}`.
pub open spec fn placeholders_between(segs: Seq<Seq<char>>) -> Seq<char>
    decreases segs.len(),
{
    if segs.len() == 0 {
        Seq::empty()
    } else if segs.len() == 1 {
        segs[0]
    } else {
        segs[0] + seq!['{', '}'] + placeholders_between(segs.drop_first())
    }
}

proof fn lemma_scan_brace_free_prefix(a: Seq<char>, b: Seq<char>)
    requires
        brace_free(a),
    ensures
        scan_template(a + b) == (a + scan_template(b).0, scan_template(b).1),
        holes_well_formed(a + b) == holes_well_formed(b),
    decreases a.len(),
{
    if a.len() == 0 {
        assert(a + b =~= b);
        assert(a + scan_template(b).0 =~= scan_template(b).0);
    } else {
        let t = a.skip(1);
        assert((a + b)[0] == a[0]);
        assert((a + b).skip(1) =~= t + b);
        lemma_scan_brace_free_prefix(t, b);
        assert(seq![a[0]] + (t + scan_template(b).0) =~= a + scan_template(b).0);
    }
}

proof fn lemma_scan_hole(h: Seq<char>, rest: Seq<char>)
    requires
        brace_free(h),
    ensures
        scan_template(seq!['{'] + h + seq!['}'] + rest) == (
            seq!['{', '}'] + scan_template(rest).0,
            seq![h] + scan_template(rest).1,
        ),
        holes_well_formed(seq!['{'] + h + seq!['}'] + rest) == holes_well_formed(rest),
{
    let s = seq!['{'] + h + seq!['}'] + rest;
    let n = h.len() as int;
    assert(s[0] == '{');
    assert forall|k: int| 0 <= k < n implies s.skip(1)[k] != '}' by {
        assert(s.skip(1)[k] == h[k]);
    }
    assert(s.skip(1)[n] == '}');
    lemma_close_at(s.skip(1), n);
    if s.len() >= 2 && s[1] == '{' {
        if n > 0 {
            assert(s[1] == h[0]);
        }
        assert(false);
    }
    assert(s.skip(2 + n) =~= rest);
    assert(s.subrange(1, 1 + n) =~= h);
    assert forall|k: int| 1 <= k < 1 + n implies s[k] != '{' by {
        assert(s[k] == h[k - 1]);
    }
}

proof fn lemma_template_of(segs: Seq<Seq<char>>, holes: Seq<Seq<char>>)
    requires
        segs.len() == holes.len() + 1,
        forall|i: int| 0 <= i < segs.len() ==> brace_free(#[trigger] segs[i]),
        forall|i: int| 0 <= i < holes.len() ==> brace_free(#[trigger] holes[i]),
    ensures
        scan_template(template_of(segs, holes)).0 == placeholders_between(segs),
        scan_template(template_of(segs, holes)).1 == holes,
        holes_well_formed(template_of(segs, holes)),
    decreases holes.len(),
{
    if holes.len() == 0 {
        lemma_brace_free_scan(segs[0]);
        lemma_scan_brace_free_prefix(segs[0], Seq::empty());
        assert(segs[0] + Seq::<char>::empty() =~= segs[0]);
    } else {
        let tail_segs = segs.drop_first();
        let tail_holes = holes.drop_first();
        assert forall|i: int| 0 <= i < tail_segs.len() implies brace_free(#[trigger] tail_segs[i]) by {
            assert(tail_segs[i] == segs[i + 1]);
        }
        assert forall|i: int| 0 <= i < tail_holes.len() implies brace_free(#[trigger] tail_holes[i]) by {
            assert(tail_holes[i] == holes[i + 1]);
        }
        lemma_template_of(tail_segs, tail_holes);
        let rest = template_of(tail_segs, tail_holes);
        assert(brace_free(segs[0]));
        assert(brace_free(holes[0]));
        let hole = seq!['{'] + holes[0] + seq!['}'] + rest;
        lemma_scan_hole(holes[0], rest);
        lemma_scan_brace_free_prefix(segs[0], hole);
        assert(template_of(segs, holes) =~= segs[0] + hole);
        assert(placeholders_between(segs) == segs[0] + seq!['{', '}'] + placeholders_between(tail_segs));
        assert(segs[0] + (seq!['{', '}'] + scan_template(rest).0) =~= placeholders_between(segs));
        assert(seq![holes[0]] + tail_holes =~= holes);
    }
}

/// A template written as brace-free texts around brace-free `{hole}`s scans to those holes, in
/// order, and to the texts joined by positional placeholders after the base placeholder; and
/// formatting that with the base URL and each hole back in its braces gives the base URL
/// followed by the template.
pub proof fn law_template_segments(base: Seq<char>, segs: Seq<Seq<char>>, holes: Seq<Seq<char>>)
    requires
        segs.len() == holes.len() + 1,
        forall|i: int| 0 <= i < segs.len() ==> brace_free(#[trigger] segs[i]),
        forall|i: int| 0 <= i < holes.len() ==> brace_free(#[trigger] holes[i]),
    ensures
        template_holes(template_of(segs, holes)) == holes,
        template_format(template_of(segs, holes)) == seq!['{', '}'] + placeholders_between(segs),
        format_positional(
            template_format(template_of(segs, holes)),
            seq![base] + braced(holes),
        ) == base + template_of(segs, holes),
{
    lemma_template_of(segs, holes);
    law_template_round_trip(base, template_of(segs, holes));
}

/// Splits a route template into its format string and hole names.
///
/// The format string starts with `{}` for the client's base URL; each `{name}` hole becomes a
/// positional `{}` and `{{`, `}}` and a lone `}` stay escaped braces.
pub fn parse_template(template: &str) -> (r: (String, Vec<String>))
    ensures
        r.0@ == template_format(template@),
        text_views(r.1@) == template_holes(template@),
{
    let ghost s = template@;
    let n = template.unicode_len();
    let mut out = String::new();
    push_char(&mut out, '{');
    push_char(&mut out, '}');
    let mut holes: Vec<String> = Vec::new();
    let mut i: usize = 0;
    proof {
        assert(s.skip(0) =~= s);
        assert(text_views(holes@) =~= Seq::<Seq<char>>::empty());
        assert(out@ =~= seq!['{', '}']);
        assert(text_views(holes@) + scan_template(s).1 =~= scan_template(s).1);
    }
    while i < n
        invariant
            s == template@,
            n == s.len(),
            i <= n,
            out@ + scan_template(s.skip(i as int)).0 == template_format(s),
            text_views(holes@) + scan_template(s.skip(i as int)).1 == template_holes(s),
        decreases n - i,
    {
        let ghost t = s.skip(i as int);
        let ghost old_out = out@;
        let ghost old_holes = text_views(holes@);
        let c = template.get_char(i);
        if c == '{' && i + 1 < n && template.get_char(i + 1) == '{' {
            push_char(&mut out, '{');
            push_char(&mut out, '{');
            proof {
                assert(t[0] == c && t[1] == '{');
                assert(t.skip(2) =~= s.skip(i + 2));
                let r = scan_template(t.skip(2));
                assert(scan_template(t) == (seq!['{', '{'] + r.0, r.1));
                assert(out@ =~= old_out + seq!['{', '{']);
                assert(out@ + r.0 =~= old_out + (seq!['{', '{'] + r.0));
            }
            i = i + 2;
        } else if c == '{' {
            let mut name = String::new();
            let mut j: usize = i + 1;
            while j < n && template.get_char(j) != '}'
                invariant
                    s == template@,
                    n == s.len(),
                    i < n,
                    i + 1 <= j <= n,
                    name@ == s.subrange(i + 1, j as int),
                    forall|k: int| i + 1 <= k < j ==> s[k] != '}',
                decreases n - j,
            {
                let d = template.get_char(j);
                push_char(&mut name, d);
                proof {
                    assert(name@ =~= s.subrange(i + 1, j + 1));
                }
                j = j + 1;
            }
            let ghost m: int = j - (i + 1);
            proof {
                let u = t.skip(1);
                assert forall|k: int| 0 <= k < m implies u[k] != '}' by {
                    assert(u[k] == s[i + 1 + k]);
                }
                if j < n {
                    assert(u[m] == s[j as int]);
                }
                lemma_close_at(u, m);
                assert(t.subrange(1, 1 + m) =~= name@);
            }
            push_char(&mut out, '{');
            push_char(&mut out, '}');
            let ghost gname = name;
            holes.push(name);
            let next: usize = if j < n {
                j + 1
            } else {
                n
            };
            proof {
                let rest = if 2 + m <= t.len() {
                    t.skip(2 + m)
                } else {
                    Seq::empty()
                };
                if j < n {
                    assert(rest =~= s.skip(next as int));
                } else {
                    assert(s.skip(next as int) =~= Seq::<char>::empty());
                    assert(rest =~= s.skip(next as int));
                }
                let r = scan_template(rest);
                assert(scan_template(t) == (seq!['{', '}'] + r.0, seq![gname@] + r.1));
                assert(out@ =~= old_out + seq!['{', '}']);
                assert(out@ + r.0 =~= old_out + (seq!['{', '}'] + r.0));
                assert(text_views(holes@) =~= old_holes.push(gname@));
                assert(text_views(holes@) + r.1 =~= old_holes + (seq![gname@] + r.1));
            }
            i = next;
        } else if c == '}' && i + 1 < n && template.get_char(i + 1) == '}' {
            push_char(&mut out, '}');
            push_char(&mut out, '}');
            proof {
                assert(t[0] == c && t[1] == '}');
                assert(t.skip(2) =~= s.skip(i + 2));
                let r = scan_template(t.skip(2));
                assert(scan_template(t) == (seq!['}', '}'] + r.0, r.1));
                assert(out@ =~= old_out + seq!['}', '}']);
                assert(out@ + r.0 =~= old_out + (seq!['}', '}'] + r.0));
            }
            i = i + 2;
        } else if c == '}' {
            push_char(&mut out, '}');
            push_char(&mut out, '}');
            proof {
                assert(t[0] == c);
                assert(!(t.len() >= 2 && t[1] == '}'));
                assert(t.skip(1) =~= s.skip(i + 1));
                let r = scan_template(t.skip(1));
                assert(scan_template(t) == (seq!['}', '}'] + r.0, r.1));
                assert(out@ =~= old_out + seq!['}', '}']);
                assert(out@ + r.0 =~= old_out + (seq!['}', '}'] + r.0));
            }
            i = i + 1;
        } else {
            push_char(&mut out, c);
            proof {
                assert(t[0] == c);
                assert(t.skip(1) =~= s.skip(i + 1));
                let r = scan_template(t.skip(1));
                assert(scan_template(t) == (seq![c] + r.0, r.1));
                assert(out@ =~= old_out.push(c));
                assert(out@ + r.0 =~= old_out + (seq![c] + r.0));
            }
            i = i + 1;
        }
    }
    proof {
        assert(s.skip(n as int) =~= Seq::<char>::empty());
        assert(out@ + Seq::<char>::empty() =~= out@);
        assert(text_views(holes@) + Seq::<Seq<char>>::empty() =~= text_views(holes@));
    }
    (out, holes)
}

// ---------------------------------------------------------------------------------------------
// Parameter names
// ---------------------------------------------------------------------------------------------

/// Whether `c` is alphabetic or numeric in Unicode's sense, as `char::is_alphanumeric` reports.
pub uninterp spec fn unicode_alphanumeric(c: char) -> bool;

/// Whether `c` is numeric in Unicode's sense, as `char::is_numeric` reports.
pub uninterp spec fn unicode_numeric(c: char) -> bool;

/// The characters `char::to_uppercase` yields for `c`.
pub uninterp spec fn unicode_uppercase(c: char) -> Seq<char>;

/// `char::is_alphanumeric`; the Unicode tables are not restated, the result is named.
#[verifier::external_body]
fn char_is_alphanumeric(c: char) -> (r: bool)
    ensures
        r == unicode_alphanumeric(c),
{
    c.is_alphanumeric()
}

/// `char::is_numeric`; the Unicode tables are not restated, the result is named.
#[verifier::external_body]
fn char_is_numeric(c: char) -> (r: bool)
    ensures
        r == unicode_numeric(c),
{
    c.is_numeric()
}

/// `syn::parse_str::<syn::Ident>(s).is_ok()`: whether `syn` parses the text as an identifier.
/// Nothing is stated of the result: which lexer `proc_macro2` uses depends on whether the
/// process runs inside a procedural macro, so the verdict is not shown to depend on the text
/// alone. Callers take it as an argument of their verified part.
#[verifier::external_body]
fn is_rust_ident(s: &str) -> (r: bool) {
    syn::parse_str::<syn::Ident>(s).is_ok()
}

/// `char::to_uppercase`, collected into a string; the Unicode case mapping is named.
#[verifier::external_body]
fn char_to_uppercase(c: char) -> (r: String)
    ensures
        r@ == unicode_uppercase(c),
{
    c.to_uppercase().collect::<String>()
}

/// `s` without its leading `*` characters (a catch-all hole is written `{*rest}`).
pub open spec fn strip_stars(s: Seq<char>) -> Seq<char>
    decreases s.len(),
{
    if s.len() > 0 && s[0] == '*' {
        strip_stars(s.drop_first())
    } else {
        s
    }
}

/// Whether a hole name looks like an identifier: non-empty, made of alphanumerics and `_`,
/// and not starting with a numeric character.
pub open spec fn hole_name_lexically_ok(name: Seq<char>) -> bool {
    &&& name.len() > 0
    &&& forall|i: int|
        0 <= i < name.len() ==> unicode_alphanumeric(#[trigger] name[i]) || name[i] == '_'
    &&& !unicode_numeric(name[0])
}

/// The generated parameter name for the hole at `index`: `path<index>`.
pub open spec fn positional_name(index: nat) -> Seq<char> {
    seq!['p', 'a', 't', 'h'] + decimal(index)
}

/// The parameter name of a hole, given whether its stripped name parses as an identifier.
pub open spec fn hole_ident_with(hole: Seq<char>, index: nat, parses: bool) -> Seq<char> {
    let name = strip_stars(hole);
    if hole_name_lexically_ok(name) && parses {
        name
    } else {
        positional_name(index)
    }
}

pub(crate) fn strip_leading_stars(hole: &str) -> (r: &str)
    ensures
        r@ == strip_stars(hole@),
{
    let n = hole.unicode_len();
    let mut k: usize = 0;
    proof {
        assert(hole@.skip(0) =~= hole@);
    }
    while k < n && hole.get_char(k) == '*'
        invariant
            n == hole@.len(),
            k <= n,
            strip_stars(hole@) == strip_stars(hole@.skip(k as int)),
        decreases n - k,
    {
        proof {
            assert(hole@.skip(k as int).drop_first() =~= hole@.skip(k + 1));
        }
        k = k + 1;
    }
    proof {
        assert(hole@.skip(k as int) =~= hole@.subrange(k as int, n as int));
    }
    hole.substring_char(k, n)
}

/// Whether a (stripped) hole name looks like an identifier.
pub fn hole_name_is_lexical(name: &str) -> (r: bool)
    ensures
        r == hole_name_lexically_ok(name@),
{
    let n = name.unicode_len();
    if n == 0 {
        return false;
    }
    let mut i: usize = 0;
    while i < n
        invariant
            n == name@.len(),
            i <= n,
            forall|j: int| 0 <= j < i ==> unicode_alphanumeric(#[trigger] name@[j]) || name@[j] == '_',
        decreases n - i,
    {
        let c = name.get_char(i);
        if !(char_is_alphanumeric(c) || c == '_') {
            return false;
        }
        i = i + 1;
    }
    !char_is_numeric(name.get_char(0))
}

/// `path<index>`.
fn positional(index: usize) -> (r: String)
    ensures
        r@ == positional_name(index as nat),
{
    let mut r = owned("path");
    let digits = decimal_string(index as u64);
    r.append(digits.as_str());
    proof {
        reveal_strlit("path");
        assert(r@ =~= positional_name(index as nat));
    }
    r
}

/// The parameter name of a hole, given whether its stripped name parses as an identifier:
/// the hole's name without leading `*` when that looks like and parses as an identifier,
/// else `path<index>`.
pub fn hole_ident_from(hole: &str, index: usize, parses: bool) -> (r: String)
    ensures
        r@ == hole_ident_with(hole@, index as nat, parses),
{
    let name = strip_leading_stars(hole);
    if hole_name_is_lexical(name) && parses {
        owned(name)
    } else {
        positional(index)
    }
}

/// The client parameter name for the hole at `index`: the hole's name without leading `*` when
/// it is a usable identifier, else `path<index>` (for keywords, digits-first or empty names).
/// Whether `syn` accepts the name is its verdict; the name is taken only when it looks like an
/// identifier and `syn` accepts it.
pub fn hole_ident(hole: &str, index: usize) -> (r: String)
    ensures
        exists|parses: bool| r@ == #[trigger] hole_ident_with(hole@, index as nat, parses),
{
    let name = strip_leading_stars(hole);
    let parses = hole_name_is_lexical(name) && is_rust_ident(name);
    let r = hole_ident_from(hole, index, parses);
    proof {
        assert(r@ == hole_ident_with(hole@, index as nat, parses));
    }
    r
}

// ---------------------------------------------------------------------------------------------
// Parameter types
// ---------------------------------------------------------------------------------------------

/// A handler's `Path<T>` type, as the client planning reads it: the type's token text and, for
/// a tuple type, the token texts of its elements.
pub struct PathType {
    pub text: String,
    pub elems: Option<Vec<String>>,
}

/// The texts a [`PathType`] holds.
pub struct PathTypeView {
    pub text: Seq<char>,
    pub elems: Option<Seq<Seq<char>>>,
}

impl View for PathType {
    type V = PathTypeView;

    open spec fn view(&self) -> PathTypeView {
        PathTypeView {
            text: self.text@,
            elems: match self.elems {
                Some(v) => Some(text_views(v@)),
                None => None,
            },
        }
    }
}

/// The view of an optional path type.
pub open spec fn path_type_view(t: Option<PathType>) -> Option<PathTypeView> {
    match t {
        Some(p) => Some(p@),
        None => None,
    }
}

/// The token text of `::std::string::String`, the fallback parameter type.
pub open spec fn string_param_type() -> Seq<char> {
    ":: std :: string :: String"@
}

fn string_param_type_text() -> (r: String)
    ensures
        r@ == string_param_type(),
{
    owned(":: std :: string :: String")
}

fn copy_texts(v: &Vec<String>) -> (r: Vec<String>)
    ensures
        text_views(r@) == text_views(v@),
{
    let mut r: Vec<String> = Vec::new();
    let mut i: usize = 0;
    while i < v.len()
        invariant
            i <= v@.len(),
            r@.len() == i,
            forall|j: int| 0 <= j < i ==> (#[trigger] r@[j])@ == v@[j]@,
        decreases v@.len() - i,
    {
        r.push(owned(v[i].as_str()));
        i = i + 1;
    }
    proof {
        assert(text_views(r@) =~= text_views(v@));
    }
    r
}

/// The element types of a tuple path type; `None` for any other type.
pub fn tuple_elems(ty: &PathType) -> (r: Option<Vec<String>>)
    ensures
        match r {
            Some(v) => ty@.elems == Some(text_views(v@)),
            None => ty@.elems is None,
        },
{
    match &ty.elems {
        Some(v) => Some(copy_texts(v)),
        None => None,
    }
}

/// One parameter type per hole: the whole path type for a single hole, the tuple's elements
/// when their number matches the holes, and `String` for every hole otherwise.
pub open spec fn param_types(n: nat, path_ty: Option<PathTypeView>) -> Seq<Seq<char>> {
    match path_ty {
        None => Seq::new(n, |_i: int| string_param_type()),
        Some(t) => if n == 1 {
            seq![t.text]
        } else if t.elems matches Some(es) && es.len() == n {
            t.elems.unwrap()
        } else {
            Seq::new(n, |_i: int| string_param_type())
        },
    }
}

fn string_per_hole(n: usize) -> (r: Vec<String>)
    ensures
        text_views(r@) == Seq::new(n as nat, |_i: int| string_param_type()),
{
    let mut r: Vec<String> = Vec::new();
    let mut i: usize = 0;
    while i < n
        invariant
            i <= n,
            r@.len() == i,
            forall|j: int| 0 <= j < i ==> (#[trigger] r@[j])@ == string_param_type(),
        decreases n - i,
    {
        r.push(string_param_type_text());
        i = i + 1;
    }
    proof {
        assert(text_views(r@) =~= Seq::new(n as nat, |_i: int| string_param_type()));
    }
    r
}

/// The client parameter types of a route's holes, from the handler's `Path` type if any.
pub fn hole_param_types(holes: &Vec<String>, path_ty: Option<PathType>) -> (r: Vec<String>)
    ensures
        text_views(r@) == param_types(holes@.len(), path_type_view(path_ty)),
{
    let path_ty = match path_ty {
        None => {
            return string_per_hole(holes.len());
        },
        Some(t) => t,
    };
    if holes.len() == 1 {
        let mut r: Vec<String> = Vec::new();
        r.push(path_ty.text);
        proof {
            assert(text_views(r@) =~= seq![path_ty@.text]);
        }
        return r;
    }
    match tuple_elems(&path_ty) {
        Some(types) => {
            if types.len() == holes.len() {
                types
            } else {
                string_per_hole(holes.len())
            }
        },
        None => string_per_hole(holes.len()),
    }
}

// ---------------------------------------------------------------------------------------------
// Path plans
// ---------------------------------------------------------------------------------------------

/// How a client method takes a route's holes: its parameters (name and type token text) and,
/// per hole, the expression (token text) substituted into the format string.
pub struct PathPlan {
    pub args: Vec<(String, String)>,
    pub subst: Vec<String>,
}

/// The token text of the tuple type `(t0, t1, .., )`, as `quote` prints it.
pub open spec fn tuple_items_text(ts: Seq<Seq<char>>) -> Seq<char>
    decreases ts.len(),
{
    if ts.len() == 0 {
        Seq::empty()
    } else if ts.len() == 1 {
        ts[0] + seq![' ', ',']
    } else {
        ts[0] + seq![' ', ',', ' '] + tuple_items_text(ts.drop_first())
    }
}

/// The token text of a tuple type with the given element texts.
pub open spec fn tuple_type_text(ts: Seq<Seq<char>>) -> Seq<char> {
    seq!['('] + tuple_items_text(ts) + seq![')']
}

/// The token text `path . <i>` of the tuple field holding hole `i`.
pub open spec fn tuple_field_text(i: nat) -> Seq<char> {
    seq!['p', 'a', 't', 'h', ' ', '.', ' '] + decimal(i)
}

/// The parameters of a path plan, given per hole whether `syn` accepts its name.
pub open spec fn plan_args(holes: Seq<Seq<char>>, path_ty: Option<PathTypeView>, parses: Seq<bool>) -> Seq<
    (Seq<char>, Seq<char>),
> {
    let types = param_types(holes.len(), path_ty);
    if holes.len() == 0 {
        Seq::empty()
    } else if holes.len() <= MAX_NAMED_PATH_PARAMS {
        Seq::new(holes.len(), |i: int| (hole_ident_with(holes[i], i as nat, parses[i]), types[i]))
    } else {
        seq![(seq!['p', 'a', 't', 'h'], tuple_type_text(types))]
    }
}

/// The substituted expressions of a path plan, one per hole.
pub open spec fn plan_subst(holes: Seq<Seq<char>>, parses: Seq<bool>) -> Seq<Seq<char>> {
    if holes.len() <= MAX_NAMED_PATH_PARAMS {
        Seq::new(holes.len(), |i: int| hole_ident_with(holes[i], i as nat, parses[i]))
    } else {
        Seq::new(holes.len(), |i: int| tuple_field_text(i as nat))
    }
}

/// The views of a plan's parameters.
pub open spec fn arg_views(a: Seq<(String, String)>) -> Seq<(Seq<char>, Seq<char>)> {
    a.map_values(|p: (String, String)| (p.0@, p.1@))
}

fn tuple_text(types: &Vec<String>) -> (r: String)
    ensures
        r@ == tuple_type_text(text_views(types@)),
{
    let ghost ts = text_views(types@);
    let mut items = String::new();
    let n = types.len();
    let mut k: usize = n;
    proof {
        assert(ts.skip(n as int) =~= Seq::<Seq<char>>::empty());
    }
    while k > 0
        invariant
            n == types@.len(),
            ts == text_views(types@),
            k <= n,
            items@ == tuple_items_text(ts.skip(k as int)),
        decreases k,
    {
        let ghost tail = ts.skip(k as int);
        k = k - 1;
        let mut item = owned(types[k].as_str());
        if k + 1 == n {
            item.append(" ,");
        } else {
            item.append(" , ");
        }
        item.append(items.as_str());
        proof {
            reveal_strlit(" ,");
            reveal_strlit(" , ");
            let here = ts.skip(k as int);
            assert(here[0] == ts[k as int]);
            assert(here.drop_first() =~= tail);
            if k + 1 == n {
                assert(tail =~= Seq::<Seq<char>>::empty());
                assert(here.len() == 1);
                assert(item@ =~= tuple_items_text(here));
            } else {
                assert(item@ =~= tuple_items_text(here));
            }
        }
        items = item;
    }
    let mut r = owned("(");
    r.append(items.as_str());
    r.append(")");
    proof {
        reveal_strlit("(");
        reveal_strlit(")");
        assert(ts.skip(0) =~= ts);
        assert(r@ =~= tuple_type_text(ts));
    }
    r
}

fn field_text(i: usize) -> (r: String)
    ensures
        r@ == tuple_field_text(i as nat),
{
    let mut r = owned("path . ");
    let digits = decimal_string(i as u64);
    r.append(digits.as_str());
    proof {
        reveal_strlit("path . ");
        assert(r@ =~= tuple_field_text(i as nat));
    }
    r
}

/// Plans how a client method takes a route's holes: up to three holes become named, typed
/// parameters substituted by name; more become one tuple parameter `path` whose fields are
/// substituted in order. A route without holes takes no path parameter. Whether `syn` accepts
/// each hole's name is its verdict, asked once per hole.
pub fn plan_path(holes: &Vec<String>, path_ty: Option<PathType>) -> (r: PathPlan)
    ensures
        exists|parses: Seq<bool>|
            #![trigger plan_subst(text_views(holes@), parses)]
            parses.len() == holes@.len() && arg_views(r.args@) == plan_args(
                text_views(holes@),
                path_type_view(path_ty),
                parses,
            ) && text_views(r.subst@) == plan_subst(text_views(holes@), parses),
{
    let mut parses: Vec<bool> = Vec::new();
    let mut i: usize = 0;
    while i < holes.len()
        invariant
            i <= holes@.len(),
            parses@.len() == i,
        decreases holes@.len() - i,
    {
        let name = strip_leading_stars(holes[i].as_str());
        let verdict = hole_name_is_lexical(name) && is_rust_ident(name);
        parses.push(verdict);
        i = i + 1;
    }
    let ghost pt = path_type_view(path_ty);
    let r = plan_path_from(holes, path_ty, &parses);
    proof {
        assert(plan_subst(text_views(holes@), parses@) == text_views(r.subst@));
    }
    r
}

/// Plans how a client method takes a route's holes, given per hole whether `syn` accepts its
/// name (see [`plan_path`]).
pub fn plan_path_from(holes: &Vec<String>, path_ty: Option<PathType>, parses: &Vec<bool>) -> (r: PathPlan)
    requires
        parses@.len() == holes@.len(),
    ensures
        arg_views(r.args@) == plan_args(text_views(holes@), path_type_view(path_ty), parses@),
        text_views(r.subst@) == plan_subst(text_views(holes@), parses@),
{
    let ghost ps = parses@;
    let ghost hs = text_views(holes@);
    if holes.len() == 0 {
        let r = PathPlan { args: Vec::new(), subst: Vec::new() };
        proof {
            assert(arg_views(r.args@) =~= plan_args(hs, path_type_view(path_ty), ps));
            assert(text_views(r.subst@) =~= plan_subst(hs, ps));
        }
        return r;
    }
    let ghost pt = path_type_view(path_ty);
    let types = hole_param_types(holes, path_ty);
    let ghost tys = text_views(types@);
    proof {
        assert(param_types(hs.len(), pt).len() == hs.len());
        assert(types@.len() == tys.len());
    }
    if holes.len() <= MAX_NAMED_PATH_PARAMS {
        let mut args: Vec<(String, String)> = Vec::new();
        let mut subst: Vec<String> = Vec::new();
        let mut i: usize = 0;
        while i < holes.len()
            invariant
                hs == text_views(holes@),
                tys == text_views(types@),
                tys == param_types(hs.len(), pt),
                types@.len() == holes@.len(),
                i <= holes@.len(),
                args@.len() == i,
                subst@.len() == i,
                forall|j: int|
                    0 <= j < i ==> (#[trigger] args@[j]).0@ == hole_ident_with(hs[j], j as nat, ps[j])
                        && args@[j].1@ == tys[j],
                forall|j: int|
                    0 <= j < i ==> (#[trigger] subst@[j])@ == hole_ident_with(hs[j], j as nat, ps[j]),
                ps == parses@,
                ps.len() == holes@.len(),
            decreases holes@.len() - i,
        {
            let name = hole_ident_from(holes[i].as_str(), i, parses[i]);
            let again = owned(name.as_str());
            let ty = owned(types[i].as_str());
            proof {
                assert(hs[i as int] == holes@[i as int]@);
                assert(tys[i as int] == types@[i as int]@);
            }
            args.push((name, ty));
            subst.push(again);
            i = i + 1;
        }
        proof {
            let want = plan_args(hs, pt, ps);
            assert(hs.len() == holes@.len());
            assert(want =~= Seq::new(
                hs.len(),
                |j: int| (hole_ident_with(hs[j], j as nat, ps[j]), tys[j]),
            ));
            assert forall|j: int| 0 <= j < hs.len() implies #[trigger] arg_views(args@)[j]
                == want[j] by {
                assert(arg_views(args@)[j] == (args@[j].0@, args@[j].1@));
            }
            assert(arg_views(args@) =~= want);
            assert(text_views(subst@) =~= plan_subst(hs, ps));
        }
        return PathPlan { args, subst };
    }
    let mut subst: Vec<String> = Vec::new();
    let mut i: usize = 0;
    while i < holes.len()
        invariant
            i <= holes@.len(),
            subst@.len() == i,
            forall|j: int| 0 <= j < i ==> (#[trigger] subst@[j])@ == tuple_field_text(j as nat),
        decreases holes@.len() - i,
    {
        subst.push(field_text(i));
        i = i + 1;
    }
    let tuple_ty = tuple_text(&types);
    let mut args: Vec<(String, String)> = Vec::new();
    args.push((owned("path"), tuple_ty));
    proof {
        reveal_strlit("path");
        assert(hs.len() > MAX_NAMED_PATH_PARAMS);
        assert(text_views(types@) == param_types(hs.len(), pt));
        assert(arg_views(args@)[0] == (seq!['p', 'a', 't', 'h'], tuple_type_text(tys)));
        assert(arg_views(args@) =~= plan_args(hs, pt, ps));
        assert(text_views(subst@) =~= plan_subst(hs, ps));
    }
    PathPlan { args, subst }
}

// ---------------------------------------------------------------------------------------------
// Method names and protocols
// ---------------------------------------------------------------------------------------------

/// The upper camel case of a snake-case name, from the segment boundary state `at_start`.
pub open spec fn camel_from(s: Seq<char>, at_start: bool) -> Seq<char>
    decreases s.len(),
{
    if s.len() == 0 {
        Seq::empty()
    } else if s[0] == '_' {
        camel_from(s.drop_first(), true)
    } else if at_start {
        unicode_uppercase(s[0]) + camel_from(s.drop_first(), false)
    } else {
        seq![s[0]] + camel_from(s.drop_first(), false)
    }
}

/// `get_user_by_id` → `GetUserById`: the `_`-separated segments, empty ones dropped, each with
/// its first character uppercased, concatenated.
pub open spec fn upper_camel_spec(s: Seq<char>) -> Seq<char> {
    camel_from(s, true)
}

/// Converts a snake-case method name to upper camel case (for a per-method response type name).
pub fn upper_camel(value: &str) -> (r: String)
    ensures
        r@ == upper_camel_spec(value@),
{
    let ghost s = value@;
    let n = value.unicode_len();
    let mut out = String::new();
    let mut at_start = true;
    let mut i: usize = 0;
    proof {
        assert(s.skip(0) =~= s);
        assert(out@ + camel_from(s, true) =~= camel_from(s, true));
    }
    while i < n
        invariant
            s == value@,
            n == s.len(),
            i <= n,
            out@ + camel_from(s.skip(i as int), at_start) == upper_camel_spec(s),
        decreases n - i,
    {
        let ghost t = s.skip(i as int);
        let ghost old_out = out@;
        let c = value.get_char(i);
        proof {
            assert(t[0] == c);
            assert(t.drop_first() =~= s.skip(i + 1));
        }
        if c == '_' {
            at_start = true;
        } else if at_start {
            let up = char_to_uppercase(c);
            out.append(up.as_str());
            proof {
                assert(out@ + camel_from(s.skip(i + 1), false) =~= old_out + (up@ + camel_from(
                    s.skip(i + 1),
                    false,
                )));
            }
            at_start = false;
        } else {
            push_char(&mut out, c);
            proof {
                assert(out@ + camel_from(s.skip(i + 1), false) =~= old_out + (seq![c] + camel_from(
                    s.skip(i + 1),
                    false,
                )));
            }
        }
        i = i + 1;
    }
    proof {
        assert(s.skip(n as int) =~= Seq::<char>::empty());
        assert(out@ + Seq::<char>::empty() =~= out@);
    }
    out
}

/// The built-in request/reply WebSocket protocols, by the last segment of their path.
pub fn request_reply_protocols() -> (r: Vec<&'static str>)
    ensures
        r@.len() == 1,
        r@[0]@ == "JsonWs"@,
{
    let mut r: Vec<&'static str> = Vec::new();
    r.push("JsonWs");
    r
}

/// Whether a `ws = P` protocol is pub/sub (topic-bearing), given the last segment of its path:
/// any protocol other than a known request/reply one; no protocol at all is not pub/sub.
pub fn is_pubsub_protocol(last_segment: Option<&str>) -> (r: bool)
    ensures
        r == match last_segment {
            Some(name) => name@ != "JsonWs"@,
            None => false,
        },
{
    match last_segment {
        Some(name) => {
            let known = request_reply_protocols();
            let mut i: usize = 0;
            while i < known.len()
                invariant
                    last_segment == Some(name),
                    known@.len() == 1,
                    known@[0]@ == "JsonWs"@,
                    i <= 1,
                    forall|j: int| 0 <= j < i ==> name@ != (#[trigger] known@[j])@,
                decreases known@.len() - i,
            {
                let candidate: &str = known[i];
                if crate::text::text_eq(name, candidate) {
                    proof {
                        assert(i == 0);
                        assert(candidate@ == "JsonWs"@);
                    }
                    return false;
                }
                i = i + 1;
            }
            true
        },
        None => false,
    }
}

} // verus!
