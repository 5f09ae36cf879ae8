//! Properties of the library as a whole: what escaping, encoding, splitting,
//! formatting and configuration promise over all inputs.

use vstd::prelude::*;
use crate::ast::{LitM, Node};
use crate::config::{
    config_problem, default_name, raw_syntaxes, syntax_names_from, syntax_problem, RawConfig,
    RawSyntax,
};
use crate::escape::{flat_map_chars, html_escape, html_escape_char, json_escape, latex_escape, lemma_flat_map_concat};
use crate::filters::{
    bytes_before, center_spec, chars_covering, hex_upper, rtrim_uws, skip_uws, trim_uws, truncate_spec,
    url_byte, url_encode, url_unreserved,
};
use crate::text::spec_is_whitespace;
use crate::fmt::nodes_str;
use crate::lex::{is_ws, lemma_run, run, Class};
use crate::node_parser::{rtrim_ws, split_ws};
use crate::parse::Syntax;
use crate::simple_filters::escape_markup;
use crate::helpers::TemplateLoop;
use crate::generator::MapChain;
use crate::filters::{lemma_words_from_starts, word_starts_at, word_starts_before, words_from};
use crate::path::{beside, find_in_config, first_in_dirs, joined};
use crate::codegen::normalized_identifier;

verus! {

// ---------------------------------------------------------------------------
// Escaping.
// ---------------------------------------------------------------------------

/// HTML escaping a text piece by piece gives the same as escaping it whole,
/// so writing a value to an escaping writer in fragments is safe.
pub proof fn law_html_escape_concat(a: Seq<char>, b: Seq<char>)
    ensures
        html_escape(a + b) == html_escape(a) + html_escape(b),
{
    lemma_flat_map_concat(a, b, |c: char| html_escape_char(c));
}

/// LaTeX escaping distributes over concatenation in the same way.
pub proof fn law_latex_escape_concat(a: Seq<char>, b: Seq<char>)
    ensures
        latex_escape(a + b) == latex_escape(a) + latex_escape(b),
{
    lemma_flat_map_concat(a, b, |c: char| crate::escape::latex_escape_char(c));
}

/// The markup escaping of the simple filters distributes over concatenation.
pub proof fn law_markup_escape_concat(a: Seq<char>, b: Seq<char>)
    ensures
        escape_markup(a + b) == escape_markup(a) + escape_markup(b),
{
    lemma_flat_map_concat(a, b, |c: char| crate::simple_filters::markup_char(c));
}

/// JSON escaping of bytes distributes over concatenation: a buffer that
/// escapes what is written to it piece by piece holds the escaping of the
/// whole.
pub proof fn law_json_escape_concat(a: Seq<u8>, b: Seq<u8>)
    ensures
        json_escape(a + b) == json_escape(a) + json_escape(b),
    decreases b.len(),
{
    if b.len() == 0 {
        assert(a + b =~= a);
        assert(json_escape(a) + json_escape(b) =~= json_escape(a));
    } else {
        law_json_escape_concat(a, b.drop_last());
        assert((a + b).drop_last() =~= a + b.drop_last());
        assert((a + b).last() == b.last());
        assert(json_escape(a) + json_escape(b) =~= json_escape(a) + json_escape(b.drop_last())
            + crate::escape::json_escape_byte(b.last()));
    }
}

pub open spec fn html_special(c: char) -> bool {
    c == '<' || c == '>' || c == '"' || c == '\'' || c == '\\' || c == '/'
}

/// HTML-escaped text holds none of `<`, `>`, `"`, `'`, `\` and `/`: whatever
/// the value, it cannot open or close a tag or close an attribute.
pub proof fn law_html_escape_no_markup(s: Seq<char>)
    ensures
        forall|i: int| 0 <= i < html_escape(s).len() ==> !html_special(#[trigger] html_escape(s)[i]),
    decreases s.len(),
{
    if s.len() > 0 {
        law_html_escape_no_markup(s.drop_last());
        let head = html_escape(s.drop_last());
        let tail = html_escape_char(s.last());
        assert(html_escape(s) == head + tail);
        assert forall|i: int| 0 <= i < html_escape(s).len() implies !html_special(
            #[trigger] html_escape(s)[i],
        ) by {
            if i < head.len() {
                assert(html_escape(s)[i] == head[i]);
            } else {
                assert(html_escape(s)[i] == tail[i - head.len()]);
            }
        }
    }
}

/// Text without `<`, `>`, `&`, `"`, `'`, `\` and `/` is left unchanged by HTML
/// escaping.
pub proof fn law_html_escape_plain(s: Seq<char>)
    requires
        forall|i: int| 0 <= i < s.len() ==> !html_special(#[trigger] s[i]) && s[i] != '&',
    ensures
        html_escape(s) == s,
    decreases s.len(),
{
    if s.len() > 0 {
        assert forall|i: int| 0 <= i < s.drop_last().len() implies !html_special(
            #[trigger] s.drop_last()[i],
        ) && s.drop_last()[i] != '&' by {
            assert(s.drop_last()[i] == s[i]);
        }
        law_html_escape_plain(s.drop_last());
        assert(!html_special(s[s.len() - 1]));
        assert(s.drop_last() + seq![s.last()] =~= s);
    }
}


pub open spec fn json_special(b: u8) -> bool {
    b == 0x26 || b == 0x27 || b == 0x3c || b == 0x3e
}

/// JSON-escaped bytes hold no `&`, `'`, `<` or `>`, so the output can stand
/// inside HTML.
pub proof fn law_json_escape_no_markup(s: Seq<u8>)
    ensures
        forall|i: int| 0 <= i < json_escape(s).len() ==> !json_special(#[trigger] json_escape(s)[i]),
    decreases s.len(),
{
    if s.len() > 0 {
        law_json_escape_no_markup(s.drop_last());
        let head = json_escape(s.drop_last());
        let tail = crate::escape::json_escape_byte(s.last());
        assert(json_escape(s) == head + tail);
        assert forall|i: int| 0 <= i < json_escape(s).len() implies !json_special(
            #[trigger] json_escape(s)[i],
        ) by {
            if i < head.len() {
                assert(json_escape(s)[i] == head[i]);
            } else {
                assert(json_escape(s)[i] == tail[i - head.len()]);
            }
        }
    }
}

// ---------------------------------------------------------------------------
// URL encoding.
// ---------------------------------------------------------------------------

/// Percent-encoding distributes over concatenation of the bytes.
pub proof fn law_url_encode_concat(a: Seq<u8>, b: Seq<u8>, strict: bool)
    ensures
        url_encode(a + b, strict) == url_encode(a, strict) + url_encode(b, strict),
    decreases b.len(),
{
    if b.len() == 0 {
        assert(a + b =~= a);
        assert(url_encode(a, strict) + url_encode(b, strict) =~= url_encode(a, strict));
    } else {
        law_url_encode_concat(a, b.drop_last(), strict);
        assert((a + b).drop_last() =~= a + b.drop_last());
        assert((a + b).last() == b.last());
        assert(url_encode(a, strict) + url_encode(b, strict) =~= url_encode(a, strict) + url_encode(
            b.drop_last(),
            strict,
        ) + url_byte(b.last(), strict));
    }
}

/// `/` written as `%2F`, every other character kept.
pub open spec fn slash_escaped(c: char) -> Seq<char> {
    if c == '/' {
        seq!['%', '2', 'F']
    } else {
        seq![c]
    }
}

/// `flat_map_chars` of a single character is that character's image.
proof fn lemma_flat_map_one(c: char, f: spec_fn(char) -> Seq<char>)
    ensures
        flat_map_chars(seq![c], f) == f(c),
{
    reveal_with_fuel(flat_map_chars, 2);
    assert(seq![c].drop_last() =~= Seq::<char>::empty());
    assert(Seq::<char>::empty() + f(c) =~= f(c));
}

/// The strict encoding of one byte is the plain one with `/` encoded.
proof fn lemma_url_byte_strict(b: u8)
    ensures
        url_byte(b, true) == flat_map_chars(url_byte(b, false), |c: char| slash_escaped(c)),
{
    let f = |c: char| slash_escaped(c);
    if b == 0x2f {
        lemma_flat_map_one('/', f);
        assert(hex_upper(b / 16) == '2');
        assert(hex_upper(b % 16) == 'F');
        assert(url_byte(b, true) =~= seq!['%', '2', 'F']);
    } else if url_unreserved(b, false) {
        assert((b as char) != '/') by {
            assert((b as char) as u32 == b as u32);
        }
        lemma_flat_map_one(b as char, f);
        assert(url_byte(b, true) =~= seq![b as char]);
    } else {
        let p = seq!['%', hex_upper(b / 16), hex_upper(b % 16)];
        assert(hex_upper(b / 16) != '/' && hex_upper(b % 16) != '/');
        lemma_flat_map_one('%', f);
        lemma_flat_map_one(hex_upper(b / 16), f);
        lemma_flat_map_one(hex_upper(b % 16), f);
        assert(p =~= seq!['%'] + seq![hex_upper(b / 16)] + seq![hex_upper(b % 16)]);
        lemma_flat_map_concat(seq!['%'] + seq![hex_upper(b / 16)], seq![hex_upper(b % 16)], f);
        lemma_flat_map_concat(seq!['%'], seq![hex_upper(b / 16)], f);
        assert(flat_map_chars(p, f) =~= p);
    }
}

/// `urlencode_strict` differs from `urlencode` only in encoding `/`: its
/// output is `urlencode`'s with each `/` replaced by `%2F`.
pub proof fn law_url_encode_strict(s: Seq<u8>)
    ensures
        url_encode(s, true) == flat_map_chars(url_encode(s, false), |c: char| slash_escaped(c)),
    decreases s.len(),
{
    let f = |c: char| slash_escaped(c);
    if s.len() > 0 {
        law_url_encode_strict(s.drop_last());
        lemma_url_byte_strict(s.last());
        lemma_flat_map_concat(url_encode(s.drop_last(), false), url_byte(s.last(), false), f);
    }
}

/// Bytes in the unreserved set (ASCII letters, digits, `_ . - ~`, and `/`
/// unless strict) come out as the same characters.
pub proof fn law_url_encode_unreserved(s: Seq<u8>, strict: bool)
    requires
        forall|i: int| 0 <= i < s.len() ==> url_unreserved(#[trigger] s[i], strict),
    ensures
        url_encode(s, strict) == s.map_values(|b: u8| b as char),
    decreases s.len(),
{
    if s.len() > 0 {
        assert forall|i: int| 0 <= i < s.drop_last().len() implies url_unreserved(
            #[trigger] s.drop_last()[i],
            strict,
        ) by {
            assert(s.drop_last()[i] == s[i]);
        }
        law_url_encode_unreserved(s.drop_last(), strict);
        assert(url_unreserved(s[s.len() - 1], strict));
        assert(s.drop_last().map_values(|b: u8| b as char).push(s.last() as char) =~= s.map_values(
            |b: u8| b as char,
        ));
    }
}


/// The characters a percent-encoding is made of: unreserved ones, `%` and
/// the uppercase hexadecimal digits.
pub open spec fn url_safe_char(c: char, strict: bool) -> bool {
    url_unreserved(c as u8, strict) && (c as u32) < 0x80 || c == '%' || ('0' <= c && c <= '9') || (
    'A' <= c && c <= 'F')
}

proof fn lemma_hex_upper(d: u8)
    requires
        d < 16,
    ensures
        ('0' <= hex_upper(d) && hex_upper(d) <= '9') || ('A' <= hex_upper(d) && hex_upper(d) <= 'F'),
{
}

/// Percent-encoded text is safe in any part of a URI: it is made only of
/// unreserved characters, `%` and uppercase hexadecimal digits.
pub proof fn law_url_encode_safe(s: Seq<u8>, strict: bool)
    ensures
        forall|i: int| 0 <= i < url_encode(s, strict).len() ==> url_safe_char(
            #[trigger] url_encode(s, strict)[i],
            strict,
        ),
    decreases s.len(),
{
    if s.len() > 0 {
        law_url_encode_safe(s.drop_last(), strict);
        let head = url_encode(s.drop_last(), strict);
        let b = s.last();
        let tail = url_byte(b, strict);
        lemma_hex_upper(b / 16);
        lemma_hex_upper(b % 16);
        assert forall|i: int| 0 <= i < url_encode(s, strict).len() implies url_safe_char(
            #[trigger] url_encode(s, strict)[i],
            strict,
        ) by {
            if i < head.len() {
                assert(url_encode(s, strict)[i] == head[i]);
            } else {
                assert(url_encode(s, strict)[i] == tail[i - head.len()]);
                if url_unreserved(b, strict) {
                    assert((b as char) as u8 == b);
                }
            }
        }
    }
}

// ---------------------------------------------------------------------------
// Trimming, truncating and centering.
// ---------------------------------------------------------------------------

proof fn lemma_skip_uws(s: Seq<char>, i: int)
    requires
        0 <= i <= s.len(),
    ensures
        i <= skip_uws(s, i) <= s.len(),
        skip_uws(s, i) < s.len() ==> !spec_is_whitespace(s[skip_uws(s, i)]),
        forall|j: int| i <= j < skip_uws(s, i) ==> spec_is_whitespace(#[trigger] s[j]),
    decreases s.len() - i,
{
    if i < s.len() && spec_is_whitespace(s[i]) {
        lemma_skip_uws(s, i + 1);
    }
}

proof fn lemma_rtrim_uws(s: Seq<char>, b: int, lo: int)
    requires
        0 <= lo <= b <= s.len(),
    ensures
        lo <= rtrim_uws(s, b, lo) <= b,
        rtrim_uws(s, b, lo) > lo ==> !spec_is_whitespace(s[rtrim_uws(s, b, lo) - 1]),
        forall|j: int| rtrim_uws(s, b, lo) <= j < b ==> spec_is_whitespace(#[trigger] s[j]),
    decreases b - lo,
{
    if b > lo && spec_is_whitespace(s[b - 1]) {
        lemma_rtrim_uws(s, b - 1, lo);
    }
}

/// Trimming strips exactly the leading and trailing whitespace: the text is
/// the whitespace before, the result and the whitespace after, and the
/// result neither starts nor ends with whitespace.
pub proof fn law_trim(s: Seq<char>)
    ensures
        exists|a: int, b: int|
            0 <= a <= b <= s.len() && trim_uws(s) == #[trigger] s.subrange(a, b) && (forall|j: int|
                0 <= j < a ==> spec_is_whitespace(#[trigger] s[j])) && (forall|j: int|
                b <= j < s.len() ==> spec_is_whitespace(#[trigger] s[j])),
        trim_uws(s).len() > 0 ==> !spec_is_whitespace(trim_uws(s)[0]) && !spec_is_whitespace(
            trim_uws(s).last(),
        ),
{
    let a = skip_uws(s, 0);
    lemma_skip_uws(s, 0);
    let b = rtrim_uws(s, s.len() as int, a);
    lemma_rtrim_uws(s, s.len() as int, a);
    assert(trim_uws(s) == s.subrange(a, b));
    if b > a {
        assert(trim_uws(s)[0] == s[a]);
        assert(trim_uws(s).last() == s[b - 1]);
    }
}

proof fn lemma_chars_covering(s: Seq<char>, k: int, n: nat)
    requires
        0 <= k <= s.len(),
    ensures
        k <= chars_covering(s, k, n) <= s.len(),
        chars_covering(s, k, n) < s.len() ==> bytes_before(s, chars_covering(s, k, n)) >= n,
    decreases s.len() - k,
{
    if k < s.len() && bytes_before(s, k) < n {
        lemma_chars_covering(s, k + 1, n);
    }
}

/// Truncation gives the text itself, or a part of its start followed by
/// `...`; that part is at least `remaining` bytes long unless it is empty
/// (`remaining` 0).
pub proof fn law_truncate(s: Seq<char>, remaining: nat)
    ensures
        truncate_spec(s, remaining) == s || exists|k: int|
            0 <= k < s.len() && truncate_spec(s, remaining) == #[trigger] s.subrange(0, k) + seq![
                '.',
                '.',
                '.',
            ] && bytes_before(s, k) >= remaining,
{
    if remaining >= bytes_before(s, s.len() as int) {
    } else if remaining == 0 {
        assert(s.subrange(0, 0) + seq!['.', '.', '.'] =~= seq!['.', '.', '.']);
        assert(s.len() > 0);
    } else {
        lemma_chars_covering(s, 0, remaining);
        let k = chars_covering(s, 0, remaining);
        if k < s.len() {
            assert(truncate_spec(s, remaining) == s.subrange(0, k) + seq!['.', '.', '.']);
        }
    }
}

/// Centering never shortens the text: the result is as wide as asked, or
/// the text itself when it is already as wide (or the width is too large).
pub proof fn law_center(s: Seq<char>, width: nat)
    ensures
        center_spec(s, width).len() == (if width >= crate::filters::MAX_LEN || s.len() >= width {
            s.len()
        } else {
            width
        }),
{
}

// ---------------------------------------------------------------------------
// Splitting text around its whitespace.
// ---------------------------------------------------------------------------

proof fn lemma_rtrim_ws(c: Seq<char>, b: int, lo: int)
    requires
        0 <= lo <= b <= c.len(),
    ensures
        lo <= rtrim_ws(c, b, lo) <= b,
        rtrim_ws(c, b, lo) > lo ==> !is_ws(c[rtrim_ws(c, b, lo) - 1]),
        forall|j: int| rtrim_ws(c, b, lo) <= j < b ==> is_ws(#[trigger] c[j]),
    decreases b - lo,
{
    if b > lo && is_ws(c[b - 1]) {
        lemma_rtrim_ws(c, b - 1, lo);
    }
}

/// Splitting text gives back the text: leading whitespace, the value and
/// trailing whitespace, in order; both whitespace parts are made of spaces,
/// tabs and line breaks only, and the value neither starts nor ends with
/// one of them.
pub proof fn law_split_ws(s: Seq<char>)
    ensures
        split_ws(s).lws + split_ws(s).val + split_ws(s).rws == s,
        forall|i: int| 0 <= i < split_ws(s).lws.len() ==> is_ws(#[trigger] split_ws(s).lws[i]),
        forall|i: int| 0 <= i < split_ws(s).rws.len() ==> is_ws(#[trigger] split_ws(s).rws[i]),
        split_ws(s).val.len() > 0 ==> !is_ws(split_ws(s).val[0]) && !is_ws(split_ws(s).val.last()),
{
    let a = run(s, 0, Class::Ws);
    lemma_run(s, 0, Class::Ws);
    let b = rtrim_ws(s, s.len() as int, a);
    lemma_rtrim_ws(s, s.len() as int, a);
    let l: LitM = split_ws(s);
    assert(l.lws + l.val + l.rws =~= s);
    assert forall|i: int| 0 <= i < l.lws.len() implies is_ws(#[trigger] l.lws[i]) by {
        assert(l.lws[i] == s[i]);
        assert(crate::lex::in_class(s[i], Class::Ws));
    }
    assert forall|i: int| 0 <= i < l.rws.len() implies is_ws(#[trigger] l.rws[i]) by {
        assert(l.rws[i] == s[b + i]);
    }
    if l.val.len() > 0 {
        assert(l.val[0] == s[a]);
        assert(!crate::lex::in_class(s[a], Class::Ws));
        assert(l.val.last() == s[b - 1]);
    }
}

// ---------------------------------------------------------------------------
// The formatter.
// ---------------------------------------------------------------------------

/// Formatting a list of nodes is formatting its parts one after the other.
pub proof fn law_fmt_concat(a: Seq<Node>, b: Seq<Node>, syn: Syntax)
    ensures
        nodes_str(a + b, syn) == nodes_str(a, syn) + nodes_str(b, syn),
    decreases b.len(),
{
    if b.len() == 0 {
        assert(a + b =~= a);
        assert(nodes_str(a, syn) + nodes_str(b, syn) =~= nodes_str(a, syn));
    } else {
        law_fmt_concat(a, b.drop_last(), syn);
        assert((a + b).drop_last() =~= a + b.drop_last());
        assert((a + b).last() == b.last());
        assert(nodes_str(a, syn) + nodes_str(b, syn) =~= nodes_str(a, syn) + nodes_str(
            b.drop_last(),
            syn,
        ) + crate::fmt::node_str(b.last(), syn));
    }
}

// ---------------------------------------------------------------------------
// Configuration.
// ---------------------------------------------------------------------------

proof fn lemma_syntax_names(v: Seq<RawSyntax>, i: int, names: Seq<Seq<char>>)
    requires
        0 <= i <= v.len(),
        syntax_names_from(v, i, names) is Ok,
    ensures
        forall|j: int| i <= j < v.len() ==> syntax_problem(#[trigger] v[j]) is None,
        syntax_names_from(v, i, names) == Ok::<Seq<Seq<char>>, Seq<char>>(
            names + v.subrange(i, v.len() as int).map_values(|r: RawSyntax| r.name@),
        ),
        forall|j: int, k: int|
            0 <= j < k < syntax_names_from(v, i, names)->Ok_0.len() && k >= names.len()
                ==> #[trigger] syntax_names_from(v, i, names)->Ok_0[j]
                != #[trigger] syntax_names_from(v, i, names)->Ok_0[k],
    decreases v.len() - i,
{
    if i < v.len() {
        let nn = names.push(v[i].name@);
        lemma_syntax_names(v, i + 1, nn);
        assert(nn + v.subrange(i + 1, v.len() as int).map_values(|r: RawSyntax| r.name@)
            =~= names + v.subrange(i, v.len() as int).map_values(|r: RawSyntax| r.name@));
        let all = syntax_names_from(v, i, names)->Ok_0;
        assert forall|j: int, k: int|
            0 <= j < k < all.len() && k >= names.len() implies #[trigger] all[j] != #[trigger] all[k] by {
            if k == names.len() {
                assert(all[k] == v[i].name@);
                assert(all[j] == names[j]);
                assert(names.contains(names[j]));
            }
        }
    } else {
        assert(v.subrange(i, v.len() as int).map_values(|r: RawSyntax| r.name@) =~= seq![]);
        assert(names + seq![] =~= names);
    }
}

/// A configuration that is accepted has valid syntaxes only, no two with
/// the same name (nor one named `default`), and its default syntax among
/// them.
pub proof fn law_config_accepted(raw: RawConfig, tw: Option<Seq<char>>)
    requires
        config_problem(raw, tw) is None,
    ensures
        forall|i: int|
            0 <= i < raw_syntaxes(raw).len() ==> syntax_problem(#[trigger] raw_syntaxes(raw)[i])
                is None,
        syntax_names_from(raw_syntaxes(raw), 0, seq!["default"@]) matches Ok(names) && {
            &&& names.contains(default_name(raw))
            &&& forall|j: int, k: int|
                0 <= j < k < names.len() ==> #[trigger] names[j] != #[trigger] names[k]
        },
{
    let v = raw_syntaxes(raw);
    lemma_syntax_names(v, 0, seq!["default"@]);
}

// ---------------------------------------------------------------------------
// Loops and scopes.
// ---------------------------------------------------------------------------

/// The states of a loop over `items` after successive calls of `next`
/// that each handed out an item (as `next` states it: the first remaining
/// item goes, the position grows by one): after `k` calls the position is
/// `k` and the items from the `k`-th on remain, so the item handed out by
/// call `k` has index `k`, is the first exactly when `k` is 0 and the last
/// exactly when `k` is one less than the number of items.
pub proof fn law_loop_positions<T>(items: Seq<T>, states: Seq<TemplateLoop<T>>)
    requires
        states.len() >= 1,
        states[0].remaining() == items,
        states[0].position() == 0,
        forall|i: int|
            0 <= i < states.len() - 1 ==> (#[trigger] states[i]).remaining().len() > 0
                && states[i + 1].remaining() == states[i].remaining().drop_first()
                && states[i + 1].position() == states[i].position() + 1,
    ensures
        forall|k: int|
            0 <= k < states.len() ==> k <= items.len() && (#[trigger] states[k]).position() == k
                && states[k].remaining() == items.subrange(k, items.len() as int),
    decreases states.len(),
{
    if states.len() == 1 {
        assert(items.subrange(0, items.len() as int) =~= items);
    } else {
        let prev = states.drop_last();
        assert forall|i: int| 0 <= i < prev.len() - 1 implies (#[trigger] prev[i]).remaining().len()
            > 0 && prev[i + 1].remaining() == prev[i].remaining().drop_first() && prev[i
            + 1].position() == prev[i].position() + 1 by {
            assert(prev[i] == states[i]);
            assert(prev[i + 1] == states[i + 1]);
        }
        law_loop_positions(items, prev);
        let n = states.len() - 1;
        assert(prev[n - 1] == states[n - 1]);
        assert(states[n - 1].remaining().len() > 0);
        assert(states[n].remaining() =~= items.subrange(n, items.len() as int));
        assert forall|k: int| 0 <= k < states.len() implies k <= items.len() && (
        #[trigger] states[k]).position() == k && states[k].remaining() == items.subrange(
            k,
            items.len() as int,
        ) by {
            if k < n {
                assert(prev[k] == states[k]);
            }
        }
    }
}

/// Opening a scope, giving values in it (any number of `insert` or
/// `insert_with_default` calls, which change only the innermost scope) and
/// closing it again leaves the scopes as they were, so every variable has
/// its earlier value again.
pub proof fn law_scope_restored<'a>(
    before: MapChain<'a>,
    opened: MapChain<'a>,
    filled: MapChain<'a>,
    after: MapChain<'a>,
)
    requires
        opened.parent == before.parent,
        opened.scopes@.len() == before.scopes@.len() + 1,
        opened.scopes@.drop_last() == before.scopes@,
        filled.parent == opened.parent,
        filled.scopes@.len() == opened.scopes@.len(),
        forall|i: int| 0 <= i < opened.scopes@.len() - 1 ==> filled.scopes@[i] == opened.scopes@[i],
        after.parent == filled.parent,
        after.scopes@ == filled.scopes@.drop_last(),
    ensures
        after.scopes@ == before.scopes@,
        forall|k: Seq<char>| after.lookup(k) == before.lookup(k),
{
    assert(after.scopes@ =~= before.scopes@) by {
        assert forall|i: int| 0 <= i < before.scopes@.len() implies after.scopes@[i]
            == before.scopes@[i] by {
            assert(opened.scopes@.drop_last()[i] == opened.scopes@[i]);
        }
    }
}


// ---------------------------------------------------------------------------
// Word counting.
// ---------------------------------------------------------------------------

/// `wordcount` counts the places where a word begins: a character that is
/// not whitespace, first in the text or right after whitespace of any kind
/// (a space, a tab, a newline or any other Unicode whitespace).
pub proof fn law_wordcount_word_starts(s: Seq<char>)
    ensures
        words_from(s, 0, false) == word_starts_before(s, s.len() as int),
{
    lemma_words_from_starts(s, 0);
}

proof fn lemma_starts_same_pattern(s: Seq<char>, t: Seq<char>, n: int)
    requires
        s.len() == t.len(),
        n <= s.len(),
        forall|i: int| 0 <= i < s.len() ==> spec_is_whitespace(s[i]) == spec_is_whitespace(t[i]),
    ensures
        word_starts_before(s, n) == word_starts_before(t, n),
    decreases n,
{
    if n > 0 {
        lemma_starts_same_pattern(s, t, n - 1);
        assert(word_starts_at(s, n - 1) == word_starts_at(t, n - 1));
    }
}

/// Every whitespace character separates words as a space does: putting any
/// whitespace character where a space stood leaves the word count unchanged.
pub proof fn law_wordcount_any_whitespace(a: Seq<char>, b: Seq<char>, c: char)
    requires
        spec_is_whitespace(c),
    ensures
        words_from(a + seq![c] + b, 0, false) == words_from(a + seq![' '] + b, 0, false),
{
    let s = a + seq![c] + b;
    let t = a + seq![' '] + b;
    assert forall|i: int| 0 <= i < s.len() implies spec_is_whitespace(s[i]) == spec_is_whitespace(
        t[i],
    ) by {
        if i < a.len() {
            assert(s[i] == a[i] && t[i] == a[i]);
        } else if i == a.len() {
            assert(s[i] == c && t[i] == ' ');
        } else {
            assert(s[i] == b[i - a.len() - 1] && t[i] == b[i - a.len() - 1]);
        }
    }
    lemma_starts_same_pattern(s, t, s.len() as int);
    lemma_words_from_starts(s, 0);
    lemma_words_from_starts(t, 0);
}

/// Words on either side of any whitespace character are counted apart: the
/// count of `a`, whitespace, `b` is the count of `a` plus the count of `b`.
pub proof fn law_wordcount_split(a: Seq<char>, b: Seq<char>, c: char)
    requires
        spec_is_whitespace(c),
    ensures
        words_from(a + seq![c] + b, 0, false) == words_from(a, 0, false) + words_from(b, 0, false),
{
    let s = a + seq![c] + b;
    lemma_words_from_starts(s, 0);
    lemma_words_from_starts(a, 0);
    lemma_words_from_starts(b, 0);
    lemma_starts_prefix(s, a, a.len() as int);
    lemma_starts_suffix(s, b, a.len() + 1int, b.len() as int);
    assert(!word_starts_at(s, a.len() as int));
}

proof fn lemma_starts_prefix(s: Seq<char>, a: Seq<char>, n: int)
    requires
        a.len() <= s.len(),
        n <= a.len(),
        forall|i: int| 0 <= i < a.len() ==> s[i] == a[i],
    ensures
        word_starts_before(s, n) == word_starts_before(a, n),
    decreases n,
{
    if n > 0 {
        lemma_starts_prefix(s, a, n - 1);
        assert(word_starts_at(s, n - 1) == word_starts_at(a, n - 1));
    }
}

/// The word beginnings of `s` from `off` on, where `s` holds `b` at `off`
/// after a whitespace character, are those of `b`.
proof fn lemma_starts_suffix(s: Seq<char>, b: Seq<char>, off: int, n: int)
    requires
        1 <= off,
        off + b.len() == s.len(),
        0 <= n <= b.len(),
        spec_is_whitespace(s[off - 1]),
        forall|i: int| 0 <= i < b.len() ==> s[off + i] == b[i],
    ensures
        word_starts_before(s, off + n) == word_starts_before(s, off) + word_starts_before(b, n),
    decreases n,
{
    if n > 0 {
        lemma_starts_suffix(s, b, off, n - 1);
        assert(word_starts_at(s, off + n - 1) == word_starts_at(b, n - 1));
    }
}

// ---------------------------------------------------------------------------
// Finding templates.
// ---------------------------------------------------------------------------

/// A template found beside the including one wins: when the file `path`
/// exists in the directory of `start_at`, that file is the one found,
/// whatever the template directories hold.
pub proof fn law_find_beside_first(
    dirs: Seq<Seq<char>>,
    path: Seq<char>,
    start_at: Seq<char>,
    existing: Seq<Seq<char>>,
)
    requires
        existing.contains(beside(start_at, path)),
    ensures
        find_in_config(dirs, path, Some(start_at), existing) == Ok::<Seq<char>, Seq<char>>(
            beside(start_at, path),
        ),
{
}

proof fn lemma_first_dir(
    dirs: Seq<Seq<char>>,
    i: int,
    k: int,
    path: Seq<char>,
    existing: Seq<Seq<char>>,
)
    requires
        0 <= i <= k < dirs.len(),
        existing.contains(joined(dirs[k], path)),
        forall|j: int| i <= j < k ==> !existing.contains(#[trigger] joined(dirs[j], path)),
    ensures
        first_in_dirs(dirs, i, path, existing) == Some(joined(dirs[k], path)),
    decreases k - i,
{
    if i < k {
        lemma_first_dir(dirs, i + 1, k, path, existing);
    }
}

proof fn lemma_no_dir(dirs: Seq<Seq<char>>, i: int, path: Seq<char>, existing: Seq<Seq<char>>)
    requires
        0 <= i <= dirs.len(),
        forall|j: int| i <= j < dirs.len() ==> !existing.contains(#[trigger] joined(dirs[j], path)),
    ensures
        first_in_dirs(dirs, i, path, existing) is None,
    decreases dirs.len() - i,
{
    if i < dirs.len() {
        lemma_no_dir(dirs, i + 1, path, existing);
    }
}

proof fn lemma_found_exists(dirs: Seq<Seq<char>>, i: int, path: Seq<char>, existing: Seq<Seq<char>>)
    ensures
        first_in_dirs(dirs, i, path, existing) matches Some(p) ==> existing.contains(p),
    decreases dirs.len() - i,
{
    if 0 <= i < dirs.len() {
        lemma_found_exists(dirs, i + 1, path, existing);
    }
}

/// Without a file beside the including template, the template directories
/// are searched in order: the first one in which `path` exists gives the
/// file found.
pub proof fn law_find_first_directory(
    dirs: Seq<Seq<char>>,
    path: Seq<char>,
    start_at: Option<Seq<char>>,
    existing: Seq<Seq<char>>,
    k: int,
)
    requires
        match start_at {
            Some(f) => !existing.contains(beside(f, path)),
            None => true,
        },
        0 <= k < dirs.len(),
        existing.contains(joined(dirs[k], path)),
        forall|j: int| 0 <= j < k ==> !existing.contains(#[trigger] joined(dirs[j], path)),
    ensures
        find_in_config(dirs, path, start_at, existing) == Ok::<Seq<char>, Seq<char>>(
            joined(dirs[k], path),
        ),
{
    lemma_first_dir(dirs, 0, k, path, existing);
}

/// A template is not found exactly when it exists neither beside the
/// including template nor in any template directory; what is found always
/// exists.
pub proof fn law_find_not_found(
    dirs: Seq<Seq<char>>,
    path: Seq<char>,
    start_at: Option<Seq<char>>,
    existing: Seq<Seq<char>>,
)
    ensures
        find_in_config(dirs, path, start_at, existing) is Err <==> (match start_at {
            Some(f) => !existing.contains(beside(f, path)),
            None => true,
        } && forall|j: int| 0 <= j < dirs.len() ==> !existing.contains(#[trigger] joined(dirs[j], path))),
        find_in_config(dirs, path, start_at, existing) matches Ok(p) ==> existing.contains(p),
{
    lemma_found_exists(dirs, 0, path, existing);
    if forall|j: int| 0 <= j < dirs.len() ==> !existing.contains(#[trigger] joined(dirs[j], path)) {
        lemma_no_dir(dirs, 0, path, existing);
    } else {
        let k = choose|k: int| 0 <= k < dirs.len() && existing.contains(#[trigger] joined(dirs[k], path));
        lemma_first_dir_exists(dirs, path, existing, k);
    }
}

proof fn lemma_first_dir_exists(dirs: Seq<Seq<char>>, path: Seq<char>, existing: Seq<Seq<char>>, k: int)
    requires
        0 <= k < dirs.len(),
        existing.contains(joined(dirs[k], path)),
    ensures
        first_in_dirs(dirs, 0, path, existing) is Some,
    decreases k,
{
    if exists|j: int| 0 <= j < k && existing.contains(#[trigger] joined(dirs[j], path)) {
        let j = choose|j: int| 0 <= j < k && existing.contains(#[trigger] joined(dirs[j], path));
        lemma_first_dir_exists(dirs, path, existing, j);
    } else {
        lemma_first_dir(dirs, 0, k, path, existing);
    }
}

// ---------------------------------------------------------------------------
// Identifiers in generated code.
// ---------------------------------------------------------------------------

/// The Rust keywords that can be written as raw identifiers: every strict,
/// reserved and weak keyword but `self`, `Self`, `super` and `loop`.
pub open spec fn raw_keyword_table() -> Set<Seq<char>> {
    set![
        "as"@, "do"@, "fn"@, "if"@, "in"@,
        "box"@, "dyn"@, "for"@, "let"@, "mod"@, "mut"@, "pub"@, "ref"@, "try"@, "use"@,
        "else"@, "enum"@, "impl"@, "move"@, "priv"@, "true"@, "type"@,
        "async"@, "await"@, "break"@, "const"@, "crate"@, "false"@, "final"@, "macro"@, "match"@,
        "trait"@, "where"@, "while"@, "yield"@,
        "become"@, "extern"@, "return"@, "static"@, "struct"@, "typeof"@, "unsafe"@,
        "unsized"@, "virtual"@,
        "abstract"@, "continue"@, "override"@
    ]
}

/// An identifier that is a keyword of the table gets `r#` in front; any
/// other identifier is written as it is.
pub proof fn law_normalize_keywords(s: Seq<char>)
    ensures
        raw_keyword_table().contains(s) ==> normalized_identifier(s) == "r#"@ + s,
        !raw_keyword_table().contains(s) ==> normalized_identifier(s) == s,
{
}

} // verus!
