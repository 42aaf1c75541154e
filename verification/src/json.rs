//! The manifest's JSON document format: rendering a manifest as
//! pretty-printed JSON text, parsing such text back, and the proof that
//! the two are inverse to each other.
//!
//! Strings are rendered with `"`, `\`, newline, carriage return and tab
//! escaped by the usual short JSON escapes; other characters pass through
//! verbatim.

use vstd::prelude::*;

use crate::manifest::{Manifest, ManifestView};
use crate::platform::{EntryView, PlatformEntry};

verus! {

/// The short-escape code under which `c` is rendered, if `c` must be
/// escaped.
pub open spec fn esc_code(c: char) -> Option<char> {
    if c == '"' {
        Some('"')
    } else if c == '\\' {
        Some('\\')
    } else if c == '\n' {
        Some('n')
    } else if c == '\r' {
        Some('r')
    } else if c == '\t' {
        Some('t')
    } else {
        None
    }
}

/// The character a short-escape code `d` decodes to, if `d` is a valid
/// code.
pub open spec fn unesc(d: char) -> Option<char> {
    if d == '"' {
        Some('"')
    } else if d == '\\' {
        Some('\\')
    } else if d == 'n' {
        Some('\n')
    } else if d == 'r' {
        Some('\r')
    } else if d == 't' {
        Some('\t')
    } else {
        None
    }
}

/// How one character is rendered inside a JSON string.
pub open spec fn esc_char(c: char) -> Seq<char> {
    match esc_code(c) {
        Some(d) => seq!['\\', d],
        None => seq![c],
    }
}

/// How a whole string body is rendered inside a JSON string.
pub open spec fn escaped(s: Seq<char>) -> Seq<char>
    decreases s.len(),
{
    if s.len() == 0 {
        Seq::empty()
    } else {
        esc_char(s[0]) + escaped(s.skip(1))
    }
}

/// A rendered string value: the escaped body followed by the closing
/// quote. The opening quote belongs to the literal text before the value.
pub open spec fn render_string(x: Seq<char>) -> Seq<char> {
    escaped(x) + seq!['"']
}

/// The literal text up to and including the opening quote of the version.
pub open spec fn lit_head() -> Seq<char> {
    "{\n  \"version\": \""@
}

/// The literal text between the version value and the notes value.
pub open spec fn lit_notes() -> Seq<char> {
    ",\n  \"notes\": \""@
}

/// The literal text between the notes value and the publication date.
pub open spec fn lit_pub_date() -> Seq<char> {
    ",\n  \"pub_date\": \""@
}

/// The literal text between the publication date and the platforms object.
pub open spec fn lit_platforms() -> Seq<char> {
    ",\n  \"platforms\": "@
}

/// The literal text closing the document.
pub open spec fn lit_tail() -> Seq<char> {
    "\n}"@
}

/// The platforms object when no platform was resolved.
pub open spec fn lit_empty_obj() -> Seq<char> {
    "{}"@
}

/// The opening of a non-empty platforms object.
pub open spec fn lit_obj_open() -> Seq<char> {
    "{\n"@
}

/// The closing of a non-empty platforms object.
pub open spec fn lit_obj_close() -> Seq<char> {
    "\n  }"@
}

/// The literal text up to and including the opening quote of an entry's
/// platform identifier.
pub open spec fn lit_entry_open() -> Seq<char> {
    "    \""@
}

/// The literal text between an entry's identifier and its signature.
pub open spec fn lit_entry_sig() -> Seq<char> {
    ": {\n      \"signature\": \""@
}

/// The literal text between an entry's signature and its URL.
pub open spec fn lit_entry_url() -> Seq<char> {
    ",\n      \"url\": \""@
}

/// The literal text closing an entry.
pub open spec fn lit_entry_close() -> Seq<char> {
    "\n    }"@
}

/// The separator between two entries.
pub open spec fn lit_entry_sep() -> Seq<char> {
    ",\n"@
}

/// One rendered platform entry.
pub open spec fn render_entry(p: (Seq<char>, EntryView)) -> Seq<char> {
    lit_entry_open() + render_string(p.0) + lit_entry_sig() + render_string(p.1.signature)
        + lit_entry_url() + render_string(p.1.url) + lit_entry_close()
}

/// The rendered bodies of one or more platform entries, separated by
/// commas.
pub open spec fn render_entries(ps: Seq<(Seq<char>, EntryView)>) -> Seq<char>
    decreases ps.len(),
{
    if ps.len() <= 1 {
        render_entry(ps[0])
    } else {
        render_entry(ps[0]) + (lit_entry_sep() + render_entries(ps.skip(1)))
    }
}

/// The rendered platforms object.
pub open spec fn render_platforms(ps: Seq<(Seq<char>, EntryView)>) -> Seq<char> {
    if ps.len() == 0 {
        lit_empty_obj()
    } else {
        lit_obj_open() + (render_entries(ps) + lit_obj_close())
    }
}

/// The whole rendered manifest document.
pub open spec fn render_manifest(m: ManifestView) -> Seq<char> {
    lit_head() + (render_string(m.version) + (lit_notes() + (render_string(m.notes) + (
    lit_pub_date() + (render_string(m.pub_date) + (lit_platforms() + (render_platforms(m.platforms)
        + lit_tail())))))))
}

/// Whether the text `t` stands in `s` at position `i`.
pub open spec fn sub_at(s: Seq<char>, i: int, t: Seq<char>) -> bool {
    0 <= i && i + t.len() <= s.len() && s.subrange(i, i + t.len()) == t
}

/// Consumes the literal text `t` at position `i`, if it stands there.
pub open spec fn expect(s: Seq<char>, i: int, t: Seq<char>) -> Option<int> {
    if sub_at(s, i, t) {
        Some(i + t.len())
    } else {
        None
    }
}

/// Parses a string body from position `i` up to and over its closing
/// quote, undoing the short escapes.
pub open spec fn parse_string_body(s: Seq<char>, i: int) -> Option<(Seq<char>, int)>
    decreases s.len() - i,
    when 0 <= i
{
    if i >= s.len() {
        None
    } else if s[i] == '"' {
        Some((Seq::empty(), i + 1))
    } else if s[i] == '\\' {
        if i + 1 < s.len() {
            match unesc(s[i + 1]) {
                None => None,
                Some(c) => match parse_string_body(s, i + 2) {
                    None => None,
                    Some((t, j)) => Some((seq![c] + t, j)),
                },
            }
        } else {
            None
        }
    } else {
        match parse_string_body(s, i + 1) {
            None => None,
            Some((t, j)) => Some((seq![s[i]] + t, j)),
        }
    }
}

/// Parses one platform entry starting at its four-space indent.
pub open spec fn parse_entry(s: Seq<char>, i: int) -> Option<((Seq<char>, EntryView), int)> {
    match expect(s, i, lit_entry_open()) {
        None => None,
        Some(i1) => match parse_string_body(s, i1) {
            None => None,
            Some((id, i2)) => match expect(s, i2, lit_entry_sig()) {
                None => None,
                Some(i3) => match parse_string_body(s, i3) {
                    None => None,
                    Some((sig, i4)) => match expect(s, i4, lit_entry_url()) {
                        None => None,
                        Some(i5) => match parse_string_body(s, i5) {
                            None => None,
                            Some((url, i6)) => match expect(s, i6, lit_entry_close()) {
                                None => None,
                                Some(i7) => Some(
                                    ((id, EntryView { signature: sig, url: url }), i7),
                                ),
                            },
                        },
                    },
                },
            },
        },
    }
}

/// Parses one or more comma-separated entries followed by the closing of
/// the platforms object. The guards on `j2` only reject a parse position
/// that failed to advance, which a successful entry never produces; they
/// make termination evident.
pub open spec fn parse_entries(s: Seq<char>, i: int) -> Option<
    (Seq<(Seq<char>, EntryView)>, int),
>
    decreases s.len() - i,
    when 0 <= i <= s.len()
{
    match parse_entry(s, i) {
        None => None,
        Some((p, j)) => if 0 <= j < s.len() && s[j] == ',' {
            match expect(s, j, lit_entry_sep()) {
                None => None,
                Some(j2) => if j2 <= i || j2 > s.len() {
                    None
                } else {
                    match parse_entries(s, j2) {
                        None => None,
                        Some((ps, j3)) => Some((seq![p] + ps, j3)),
                    }
                },
            }
        } else {
            match expect(s, j, lit_obj_close()) {
                None => None,
                Some(j2) => Some((seq![p], j2)),
            }
        },
    }
}

/// Parses the platforms object.
pub open spec fn parse_platforms(s: Seq<char>, i: int) -> Option<
    (Seq<(Seq<char>, EntryView)>, int),
> {
    match expect(s, i, seq!['{']) {
        None => None,
        Some(j) => if j < s.len() && s[j] == '}' {
            Some((Seq::empty(), j + 1))
        } else {
            match expect(s, j, seq!['\n']) {
                None => None,
                Some(j2) => parse_entries(s, j2),
            }
        },
    }
}

/// Parses a whole manifest document. Succeeds only on exactly the text
/// shape that [`render_manifest`] produces, with nothing following it.
pub open spec fn parse_manifest(s: Seq<char>) -> Option<ManifestView> {
    match expect(s, 0, lit_head()) {
        None => None,
        Some(i1) => match parse_string_body(s, i1) {
            None => None,
            Some((version, i2)) => match expect(s, i2, lit_notes()) {
                None => None,
                Some(i3) => match parse_string_body(s, i3) {
                    None => None,
                    Some((notes, i4)) => match expect(s, i4, lit_pub_date()) {
                        None => None,
                        Some(i5) => match parse_string_body(s, i5) {
                            None => None,
                            Some((pub_date, i6)) => match expect(s, i6, lit_platforms()) {
                                None => None,
                                Some(i7) => match parse_platforms(s, i7) {
                                    None => None,
                                    Some((platforms, i8)) => match expect(s, i8, lit_tail()) {
                                        None => None,
                                        Some(i9) => if i9 == s.len() {
                                            Some(
                                                ManifestView {
                                                    version,
                                                    notes,
                                                    pub_date,
                                                    platforms,
                                                },
                                            )
                                        } else {
                                            None
                                        },
                                    },
                                },
                            },
                        },
                    },
                },
            },
        },
    }
}

proof fn lemma_sub_at_index(s: Seq<char>, i: int, t: Seq<char>, j: int)
    requires
        sub_at(s, i, t),
        0 <= j < t.len(),
    ensures
        s[i + j] == t[j],
{
    assert(s.subrange(i, i + t.len())[j] == s[i + j]);
}

proof fn lemma_sub_at_split(s: Seq<char>, i: int, a: Seq<char>, b: Seq<char>)
    requires
        sub_at(s, i, a + b),
    ensures
        sub_at(s, i, a),
        sub_at(s, i + a.len(), b),
{
    assert forall|j: int| 0 <= j < a.len() implies s.subrange(i, i + a.len())[j] == a[j] by {
        lemma_sub_at_index(s, i, a + b, j);
        assert((a + b)[j] == a[j]);
    }
    assert(s.subrange(i, i + a.len()) =~= a);
    assert forall|j: int|
        0 <= j < b.len() implies s.subrange(i + a.len(), i + a.len() + b.len())[j] == b[j] by {
        lemma_sub_at_index(s, i, a + b, a.len() + j);
        assert((a + b)[a.len() + j] == b[j]);
    }
    assert(s.subrange(i + a.len(), i + a.len() + b.len()) =~= b);
}

proof fn lemma_sub_at_join(s: Seq<char>, i: int, a: Seq<char>, b: Seq<char>)
    requires
        sub_at(s, i, a),
        sub_at(s, i + a.len(), b),
    ensures
        sub_at(s, i, a + b),
{
    assert forall|j: int|
        0 <= j < (a + b).len() implies s.subrange(i, i + (a + b).len())[j] == (a + b)[j] by {
        if j < a.len() {
            lemma_sub_at_index(s, i, a, j);
        } else {
            lemma_sub_at_index(s, i + a.len(), b, j - a.len());
        }
    }
    assert(s.subrange(i, i + (a + b).len()) =~= a + b);
}

/// Parsing a string value back out of its rendering: at a position where
/// an escaped body and its closing quote stand, the parser returns exactly
/// the original body and stops just past the quote.
proof fn lemma_parse_escaped(s: Seq<char>, i: int, x: Seq<char>)
    requires
        sub_at(s, i, escaped(x) + seq!['"']),
    ensures
        parse_string_body(s, i) == Some((x, i + escaped(x).len() + 1)),
    decreases x.len(),
{
    let t = escaped(x) + seq!['"'];
    if x.len() == 0 {
        assert(escaped(x) =~= Seq::<char>::empty());
        lemma_sub_at_index(s, i, t, 0);
        assert(s[i] == '"');
        assert(x =~= Seq::<char>::empty());
    } else {
        let c = x[0];
        let rest = x.skip(1);
        assert(escaped(x) == esc_char(c) + escaped(rest));
        let k = esc_char(c).len();
        assert(t =~= esc_char(c) + (escaped(rest) + seq!['"']));
        lemma_sub_at_split(s, i, esc_char(c), escaped(rest) + seq!['"']);
        lemma_parse_escaped(s, i + k, rest);
        assert(seq![c] + rest =~= x);
        match esc_code(c) {
            None => {
                lemma_sub_at_index(s, i, esc_char(c), 0);
                assert(s[i] == c);
                assert(c != '"' && c != '\\');
            },
            Some(d) => {
                lemma_sub_at_index(s, i, esc_char(c), 0);
                lemma_sub_at_index(s, i, esc_char(c), 1);
                assert(s[i] == '\\');
                assert(s[i + 1] == d);
                assert(unesc(d) == Some(c));
            },
        }
    }
}

/// Parsing one entry back out of its rendering.
proof fn lemma_parse_entry_at(s: Seq<char>, i: int, p: (Seq<char>, EntryView))
    requires
        sub_at(s, i, render_entry(p)),
    ensures
        parse_entry(s, i) == Some((p, i + render_entry(p).len())),
{
    let a1 = lit_entry_open();
    let r1 = render_string(p.0);
    let a2 = lit_entry_sig();
    let r2 = render_string(p.1.signature);
    let a3 = lit_entry_url();
    let r3 = render_string(p.1.url);
    let a4 = lit_entry_close();
    lemma_sub_at_split(s, i, a1 + r1 + a2 + r2 + a3 + r3, a4);
    lemma_sub_at_split(s, i, a1 + r1 + a2 + r2 + a3, r3);
    lemma_sub_at_split(s, i, a1 + r1 + a2 + r2, a3);
    lemma_sub_at_split(s, i, a1 + r1 + a2, r2);
    lemma_sub_at_split(s, i, a1 + r1, a2);
    lemma_sub_at_split(s, i, a1, r1);
    let i1 = i + a1.len();
    lemma_parse_escaped(s, i1, p.0);
    let i2 = i1 + r1.len();
    let i3 = i2 + a2.len();
    lemma_parse_escaped(s, i3, p.1.signature);
    let i4 = i3 + r2.len();
    let i5 = i4 + a3.len();
    lemma_parse_escaped(s, i5, p.1.url);
    let i6 = i5 + r3.len();
    let i7 = i6 + a4.len();
    assert(parse_string_body(s, i1) == Some((p.0, i2)));
    assert(parse_string_body(s, i3) == Some((p.1.signature, i4)));
    assert(parse_string_body(s, i5) == Some((p.1.url, i6)));
    assert(EntryView { signature: p.1.signature, url: p.1.url } == p.1);
}

/// Parsing the entry list back out of its rendering, up to and over the
/// closing of the platforms object.
proof fn lemma_parse_entries_at(s: Seq<char>, i: int, ps: Seq<(Seq<char>, EntryView)>)
    requires
        ps.len() > 0,
        sub_at(s, i, render_entries(ps) + lit_obj_close()),
    ensures
        parse_entries(s, i) == Some(
            (ps, i + render_entries(ps).len() + lit_obj_close().len()),
        ),
    decreases ps.len(),
{
    let close = lit_obj_close();
    let e0 = render_entry(ps[0]);
    if ps.len() == 1 {
        assert(render_entries(ps) == e0);
        lemma_sub_at_split(s, i, e0, close);
        lemma_parse_entry_at(s, i, ps[0]);
        let j = i + e0.len();
        reveal_strlit("\n  }");
        lemma_sub_at_index(s, j, close, 0);
        assert(s[j] == '\n');
        assert(expect(s, j, close) == Some(j + close.len()));
        assert(seq![ps[0]] =~= ps);
    } else {
        let sep = lit_entry_sep();
        let rest = ps.skip(1);
        assert(render_entries(ps) == e0 + (sep + render_entries(rest)));
        let t = render_entries(ps) + close;
        assert(t =~= e0 + ((sep + render_entries(rest)) + close));
        assert((sep + render_entries(rest)) + close =~= sep + (render_entries(rest) + close));
        lemma_sub_at_split(s, i, e0, sep + (render_entries(rest) + close));
        lemma_parse_entry_at(s, i, ps[0]);
        let j = i + e0.len();
        lemma_sub_at_split(s, j, sep, render_entries(rest) + close);
        reveal_strlit(",\n");
        lemma_sub_at_index(s, j, sep, 0);
        assert(s[j] == ',');
        assert(expect(s, j, sep) == Some(j + sep.len()));
        let j2 = j + sep.len();
        lemma_parse_entries_at(s, j2, rest);
        assert(seq![ps[0]] + rest =~= ps);
    }
}

/// Parsing the platforms object back out of its rendering.
proof fn lemma_parse_platforms_at(s: Seq<char>, i: int, ps: Seq<(Seq<char>, EntryView)>)
    requires
        sub_at(s, i, render_platforms(ps)),
    ensures
        parse_platforms(s, i) == Some((ps, i + render_platforms(ps).len())),
{
    if ps.len() == 0 {
        reveal_strlit("{}");
        assert(lit_empty_obj() =~= seq!['{'] + seq!['}']);
        lemma_sub_at_split(s, i, seq!['{'], seq!['}']);
        lemma_sub_at_index(s, i + 1, seq!['}'], 0);
        assert(s[i + 1] == '}');
        assert(expect(s, i, seq!['{']) == Some(i + 1));
        assert(ps =~= Seq::<(Seq<char>, EntryView)>::empty());
    } else {
        reveal_strlit("{\n");
        assert(lit_obj_open() =~= seq!['{'] + seq!['\n']);
        let body = render_entries(ps) + lit_obj_close();
        assert(render_platforms(ps) =~= (seq!['{'] + seq!['\n']) + body);
        assert((seq!['{'] + seq!['\n']) + body =~= seq!['{'] + (seq!['\n'] + body));
        lemma_sub_at_split(s, i, seq!['{'], seq!['\n'] + body);
        lemma_sub_at_split(s, i + 1, seq!['\n'], body);
        lemma_sub_at_index(s, i + 1, seq!['\n'], 0);
        assert(s[i + 1] == '\n');
        assert(expect(s, i, seq!['{']) == Some(i + 1));
        assert(expect(s, i + 1, seq!['\n']) == Some(i + 2));
        lemma_parse_entries_at(s, i + 2, ps);
    }
}

/// Escaping distributes over concatenation.
proof fn lemma_escaped_app(a: Seq<char>, b: Seq<char>)
    ensures
        escaped(a + b) == escaped(a) + escaped(b),
    decreases a.len(),
{
    if a.len() == 0 {
        assert(a + b =~= b);
        assert(escaped(a) =~= Seq::<char>::empty());
        assert(escaped(a) + escaped(b) =~= escaped(b));
    } else {
        assert((a + b)[0] == a[0]);
        assert((a + b).skip(1) =~= a.skip(1) + b);
        lemma_escaped_app(a.skip(1), b);
        assert(escaped(a + b) == esc_char(a[0]) + (escaped(a.skip(1)) + escaped(b)));
        assert(esc_char(a[0]) + (escaped(a.skip(1)) + escaped(b)) =~= (esc_char(a[0]) + escaped(
            a.skip(1),
        )) + escaped(b));
    }
}

/// Appends the escaped rendering of `x` to `out`.
fn append_escaped(out: &mut String, x: &str)
    ensures
        final(out)@ == old(out)@ + escaped(x@),
{
    let n = x.unicode_len();
    let mut i: usize = 0;
    proof {
        assert(x@.take(0) =~= Seq::<char>::empty());
        assert(escaped(x@.take(0)) =~= Seq::<char>::empty());
        assert(out@ + escaped(x@.take(0)) =~= out@);
    }
    while i < n
        invariant
            0 <= i <= n,
            n == x@.len(),
            out@ == old(out)@ + escaped(x@.take(i as int)),
        decreases n - i,
    {
        let ghost prefix = x@.take(i as int);
        let c = x.get_char(i);
        if c == '"' {
            out.append("\\\"");
            proof {
                reveal_strlit("\\\"");
                assert("\\\""@ =~= esc_char(c));
            }
        } else if c == '\\' {
            out.append("\\\\");
            proof {
                reveal_strlit("\\\\");
                assert("\\\\"@ =~= esc_char(c));
            }
        } else if c == '\n' {
            out.append("\\n");
            proof {
                reveal_strlit("\\n");
                assert("\\n"@ =~= esc_char(c));
            }
        } else if c == '\r' {
            out.append("\\r");
            proof {
                reveal_strlit("\\r");
                assert("\\r"@ =~= esc_char(c));
            }
        } else if c == '\t' {
            out.append("\\t");
            proof {
                reveal_strlit("\\t");
                assert("\\t"@ =~= esc_char(c));
            }
        } else {
            let piece = x.substring_char(i, i + 1);
            out.append(piece);
            proof {
                assert(x@.subrange(i as int, i + 1) =~= seq![c]);
                assert(esc_char(c) =~= seq![c]);
            }
        }
        proof {
            assert(x@.take(i + 1) =~= prefix + seq![c]);
            lemma_escaped_app(prefix, seq![c]);
            assert(escaped(seq![c]) == esc_char(c) + escaped(seq![c].skip(1)));
            assert(seq![c].skip(1) =~= Seq::<char>::empty());
            assert(escaped(seq![c]) =~= esc_char(c));
            assert((old(out)@ + escaped(prefix)) + esc_char(c) =~= old(out)@ + escaped(
                x@.take(i + 1),
            ));
        }
        i = i + 1;
    }
    proof {
        assert(x@.take(n as int) =~= x@);
    }
}

/// Extending a rendered entry list by one more entry appends a separator
/// and the new entry's rendering.
proof fn lemma_render_entries_snoc(ps: Seq<(Seq<char>, EntryView)>, k: int)
    requires
        1 <= k < ps.len(),
    ensures
        render_entries(ps.take(k + 1)) == render_entries(ps.take(k)) + (lit_entry_sep()
            + render_entry(ps[k])),
    decreases k,
{
    let sep = lit_entry_sep();
    if k == 1 {
        let t2 = ps.take(2);
        assert(t2.skip(1) =~= seq![ps[1]]);
        assert(render_entries(seq![ps[1]]) == render_entry(ps[1]));
        assert(render_entries(t2) == render_entry(ps[0]) + (sep + render_entry(ps[1])));
        assert(render_entries(ps.take(1)) == render_entry(ps[0]));
    } else {
        let a = ps.take(k + 1);
        assert(a[0] == ps[0]);
        assert(a.skip(1) =~= ps.skip(1).take(k));
        lemma_render_entries_snoc(ps.skip(1), k - 1);
        assert(ps.skip(1)[k - 1] == ps[k]);
        assert(ps.skip(1).take(k - 1) =~= ps.take(k).skip(1));
        let x = render_entries(ps.take(k).skip(1));
        let e0 = render_entry(ps[0]);
        let ek = render_entry(ps[k]);
        assert(render_entries(a) == e0 + (sep + (x + (sep + ek))));
        assert(render_entries(ps.take(k)) == e0 + (sep + x));
        assert(e0 + (sep + (x + (sep + ek))) =~= (e0 + (sep + x)) + (sep + ek));
    }
}

/// Renders a manifest as its pretty-printed JSON document.
pub fn manifest_to_json(m: &Manifest) -> (r: String)
    ensures
        r@ == render_manifest(m@),
{
    let ghost pv = m@.platforms;
    let mut out = String::new();
    out.append("{\n  \"version\": \"");
    append_escaped(&mut out, m.version.as_str());
    out.append("\"");
    out.append(",\n  \"notes\": \"");
    append_escaped(&mut out, m.notes.as_str());
    out.append("\"");
    out.append(",\n  \"pub_date\": \"");
    append_escaped(&mut out, m.pub_date.as_str());
    out.append("\"");
    out.append(",\n  \"platforms\": ");
    let ghost head_part = lit_head() + (render_string(m@.version) + (lit_notes() + (render_string(
        m@.notes,
    ) + (lit_pub_date() + (render_string(m@.pub_date) + lit_platforms())))));
    proof {
        reveal_strlit("\"");
        assert("\""@ =~= seq!['"']);
        assert(out@ =~= head_part);
    }
    if m.platforms.len() == 0 {
        out.append("{}");
        proof {
            assert(render_platforms(pv) == lit_empty_obj());
            assert(out@ =~= head_part + render_platforms(pv));
        }
    } else {
        out.append("{\n");
        let ghost base = out@;
        let mut k: usize = 0;
        while k < m.platforms.len()
            invariant
                0 <= k <= m.platforms.len(),
                pv == m@.platforms,
                pv.len() == m.platforms@.len(),
                base == head_part + lit_obj_open(),
                k == 0 ==> out@ == base,
                k >= 1 ==> out@ == base + render_entries(pv.take(k as int)),
            decreases m.platforms@.len() - k,
        {
            let ghost out_start = out@;
            if k > 0 {
                out.append(",\n");
            }
            out.append("    \"");
            append_escaped(&mut out, m.platforms[k].0.as_str());
            out.append("\"");
            out.append(": {\n      \"signature\": \"");
            append_escaped(&mut out, m.platforms[k].1.signature.as_str());
            out.append("\"");
            out.append(",\n      \"url\": \"");
            append_escaped(&mut out, m.platforms[k].1.url.as_str());
            out.append("\"");
            out.append("\n    }");
            proof {
                reveal_strlit("\"");
                assert("\""@ =~= seq!['"']);
                let p = pv[k as int];
                assert(p.0 == m.platforms@[k as int].0@);
                assert(p.1 == m.platforms@[k as int].1@);
                if k == 0 {
                    assert(out@ =~= out_start + render_entry(p));
                    assert(pv.take(1)[0] == pv[0]);
                    assert(render_entries(pv.take(1)) == render_entry(pv[0]));
                } else {
                    assert(out@ =~= out_start + (lit_entry_sep() + render_entry(p)));
                    lemma_render_entries_snoc(pv, k as int);
                }
            }
            k = k + 1;
        }
        out.append("\n  }");
        proof {
            assert(pv.take(pv.len() as int) =~= pv);
            assert(out@ =~= head_part + (lit_obj_open() + (render_entries(pv)
                + lit_obj_close())));
            assert(out@ =~= head_part + render_platforms(pv));
        }
    }
    out.append("\n}");
    proof {
        assert(out@ =~= render_manifest(m@));
    }
    out
}

/// Round trip: parsing a rendered manifest yields the manifest again,
/// field for field.
#[verifier::rlimit(100)]
#[verifier::spinoff_prover]
pub proof fn lemma_manifest_round_trip(m: ManifestView)
    ensures
        parse_manifest(render_manifest(m)) == Some(m),
{
    let s = render_manifest(m);
    let h = lit_head();
    let r1 = render_string(m.version);
    let l2 = lit_notes();
    let r2 = render_string(m.notes);
    let l3 = lit_pub_date();
    let r3 = render_string(m.pub_date);
    let l4 = lit_platforms();
    let pf = render_platforms(m.platforms);
    let tl = lit_tail();
    assert(s.subrange(0, s.len() as int) =~= s);
    assert(sub_at(s, 0, s));
    lemma_sub_at_split(s, 0, h, r1 + (l2 + (r2 + (l3 + (r3 + (l4 + (pf + tl)))))));
    let i1 = h.len() as int;
    lemma_sub_at_split(s, i1, r1, l2 + (r2 + (l3 + (r3 + (l4 + (pf + tl))))));
    lemma_parse_escaped(s, i1, m.version);
    let i2 = i1 + r1.len();
    lemma_sub_at_split(s, i2, l2, r2 + (l3 + (r3 + (l4 + (pf + tl)))));
    let i3 = i2 + l2.len();
    lemma_sub_at_split(s, i3, r2, l3 + (r3 + (l4 + (pf + tl))));
    lemma_parse_escaped(s, i3, m.notes);
    let i4 = i3 + r2.len();
    lemma_sub_at_split(s, i4, l3, r3 + (l4 + (pf + tl)));
    let i5 = i4 + l3.len();
    lemma_sub_at_split(s, i5, r3, l4 + (pf + tl));
    lemma_parse_escaped(s, i5, m.pub_date);
    let i6 = i5 + r3.len();
    lemma_sub_at_split(s, i6, l4, pf + tl);
    let i7 = i6 + l4.len();
    lemma_sub_at_split(s, i7, pf, tl);
    lemma_parse_platforms_at(s, i7, m.platforms);
    let i8 = i7 + pf.len();
    assert(expect(s, i8, tl) == Some(i8 + tl.len()));
    let i9 = i8 + tl.len();
    assert(i9 == s.len());
    assert(ManifestView {
        version: m.version,
        notes: m.notes,
        pub_date: m.pub_date,
        platforms: m.platforms,
    } == m);
}


/// Consumes the literal `lit` at position `i` of `s`, comparing character
/// by character.
fn expect_lit(s: &str, i: usize, lit: &str) -> (r: Option<usize>)
    ensures
        match r {
            Some(j) => expect(s@, i as int, lit@) == Some(j as int) && i <= j <= s@.len(),
            None => expect(s@, i as int, lit@) is None,
        },
{
    let n = s.unicode_len();
    let m = lit.unicode_len();
    if i > n || m > n - i {
        proof {
            assert(!sub_at(s@, i as int, lit@));
        }
        return None;
    }
    let mut j: usize = 0;
    while j < m
        invariant
            0 <= j <= m,
            i + m <= n,
            n == s@.len(),
            m == lit@.len(),
            forall|t: int| 0 <= t < j ==> s@[i + t] == lit@[t],
        decreases m - j,
    {
        if s.get_char(i + j) != lit.get_char(j) {
            proof {
                if sub_at(s@, i as int, lit@) {
                    assert(s@.subrange(i as int, i + lit@.len())[j as int] == s@[i + j]);
                }
            }
            return None;
        }
        j = j + 1;
    }
    proof {
        assert forall|t: int|
            0 <= t < m implies s@.subrange(i as int, i + m as int)[t] == lit@[t] by {}
        assert(s@.subrange(i as int, i + m as int) =~= lit@);
    }
    Some(i + m)
}

/// Parses a string value at `i`, undoing the short escapes, mirroring
/// [`parse_string_body`].
fn parse_string_exec(s: &str, i: usize) -> (r: Option<(String, usize)>)
    ensures
        match r {
            Some(p) => parse_string_body(s@, i as int) == Some((p.0@, p.1 as int)) && i < p.1
                <= s@.len(),
            None => parse_string_body(s@, i as int) is None,
        },
    decreases s@.len() - i,
{
    let n = s.unicode_len();
    if i >= n {
        return None;
    }
    let c = s.get_char(i);
    if c == '"' {
        return Some((String::new(), i + 1));
    }
    if c == '\\' {
        if i + 1 >= n {
            return None;
        }
        let d = s.get_char(i + 1);
        let dec: &str;
        if d == '"' {
            dec = "\"";
            proof {
                reveal_strlit("\"");
            }
        } else if d == '\\' {
            dec = "\\";
            proof {
                reveal_strlit("\\");
            }
        } else if d == 'n' {
            dec = "\n";
            proof {
                reveal_strlit("\n");
            }
        } else if d == 'r' {
            dec = "\r";
            proof {
                reveal_strlit("\r");
            }
        } else if d == 't' {
            dec = "\t";
            proof {
                reveal_strlit("\t");
            }
        } else {
            proof {
                assert(unesc(d) is None);
            }
            return None;
        }
        proof {
            assert(dec@ =~= seq![unesc(d)->Some_0]);
        }
        match parse_string_exec(s, i + 2) {
            None => None,
            Some((t, j)) => {
                let mut res = dec.to_owned();
                res.append(t.as_str());
                Some((res, j))
            },
        }
    } else {
        match parse_string_exec(s, i + 1) {
            None => None,
            Some((t, j)) => {
                let piece = s.substring_char(i, i + 1);
                proof {
                    assert(s@.subrange(i as int, i + 1) =~= seq![c]);
                }
                let mut res = piece.to_owned();
                res.append(t.as_str());
                Some((res, j))
            },
        }
    }
}

/// Parses one platform entry, mirroring [`parse_entry`].
fn parse_entry_exec(s: &str, i: usize) -> (r: Option<((String, PlatformEntry), usize)>)
    ensures
        match r {
            Some(p) => parse_entry(s@, i as int) == Some((((p.0).0@, (p.0).1@), p.1 as int)) && i
                < p.1 <= s@.len(),
            None => parse_entry(s@, i as int) is None,
        },
{
    let i1 = match expect_lit(s, i, "    \"") {
        None => { return None; },
        Some(v) => v,
    };
    let (id, i2) = match parse_string_exec(s, i1) {
        None => { return None; },
        Some(v) => v,
    };
    let i3 = match expect_lit(s, i2, ": {\n      \"signature\": \"") {
        None => { return None; },
        Some(v) => v,
    };
    let (sig, i4) = match parse_string_exec(s, i3) {
        None => { return None; },
        Some(v) => v,
    };
    let i5 = match expect_lit(s, i4, ",\n      \"url\": \"") {
        None => { return None; },
        Some(v) => v,
    };
    let (url, i6) = match parse_string_exec(s, i5) {
        None => { return None; },
        Some(v) => v,
    };
    let i7 = match expect_lit(s, i6, "\n    }") {
        None => { return None; },
        Some(v) => v,
    };
    Some(((id, PlatformEntry { signature: sig, url }), i7))
}

/// Parses the comma-separated entry list and the object's closing,
/// mirroring [`parse_entries`].
fn parse_entries_exec(s: &str, i: usize) -> (r: Option<(Vec<(String, PlatformEntry)>, usize)>)
    requires
        i <= s@.len(),
    ensures
        match r {
            Some(p) => parse_entries(s@, i as int) == Some(
                (p.0@.map_values(|q: (String, PlatformEntry)| (q.0@, q.1@)), p.1 as int),
            ) && i < p.1 <= s@.len(),
            None => parse_entries(s@, i as int) is None,
        },
    decreases s@.len() - i,
{
    let (first, j) = match parse_entry_exec(s, i) {
        None => { return None; },
        Some(v) => v,
    };
    let ghost fv = (first.0@, first.1@);
    let n = s.unicode_len();
    if j < n && s.get_char(j) == ',' {
        let j2 = match expect_lit(s, j, ",\n") {
            None => { return None; },
            Some(v) => v,
        };
        if j2 <= i {
            // a successful entry always advances; this mirrors the
            // termination guard of [`parse_entries`]
            return None;
        }
        match parse_entries_exec(s, j2) {
            None => None,
            Some((ps, j3)) => {
                let ghost old_views = ps@.map_values(|q: (String, PlatformEntry)| (q.0@, q.1@));
                let mut ps = ps;
                ps.insert(0, first);
                proof {
                    assert(ps@.map_values(|q: (String, PlatformEntry)| (q.0@, q.1@)) =~= seq![fv]
                        + old_views);
                }
                Some((ps, j3))
            },
        }
    } else {
        let j2 = match expect_lit(s, j, "\n  }") {
            None => { return None; },
            Some(v) => v,
        };
        let mut one: Vec<(String, PlatformEntry)> = Vec::new();
        one.push(first);
        proof {
            assert(one@.map_values(|q: (String, PlatformEntry)| (q.0@, q.1@)) =~= seq![fv]);
        }
        Some((one, j2))
    }
}

/// Parses the platforms object, mirroring [`parse_platforms`].
fn parse_platforms_exec(s: &str, i: usize) -> (r: Option<(Vec<(String, PlatformEntry)>, usize)>)
    ensures
        match r {
            Some(p) => parse_platforms(s@, i as int) == Some(
                (p.0@.map_values(|q: (String, PlatformEntry)| (q.0@, q.1@)), p.1 as int),
            ) && i < p.1 <= s@.len(),
            None => parse_platforms(s@, i as int) is None,
        },
{
    proof {
        reveal_strlit("{");
        assert("{"@ =~= seq!['{']);
        reveal_strlit("\n");
        assert("\n"@ =~= seq!['\n']);
    }
    let j = match expect_lit(s, i, "{") {
        None => { return None; },
        Some(v) => v,
    };
    let n = s.unicode_len();
    if j < n && s.get_char(j) == '}' {
        let none_resolved: Vec<(String, PlatformEntry)> = Vec::new();
        proof {
            assert(none_resolved@.map_values(|q: (String, PlatformEntry)| (q.0@, q.1@))
                =~= Seq::<(Seq<char>, EntryView)>::empty());
        }
        return Some((none_resolved, j + 1));
    }
    let j2 = match expect_lit(s, j, "\n") {
        None => { return None; },
        Some(v) => v,
    };
    parse_entries_exec(s, j2)
}

/// Parses a manifest document: it accepts exactly the text shape that
/// [`manifest_to_json`] produces, and undoes it field for field.
pub fn manifest_from_json(s: &str) -> (r: Option<Manifest>)
    ensures
        match r {
            Some(m) => parse_manifest(s@) == Some(m@),
            None => parse_manifest(s@) is None,
        },
{
    let i1 = match expect_lit(s, 0, "{\n  \"version\": \"") {
        None => { return None; },
        Some(v) => v,
    };
    let (version, i2) = match parse_string_exec(s, i1) {
        None => { return None; },
        Some(v) => v,
    };
    let i3 = match expect_lit(s, i2, ",\n  \"notes\": \"") {
        None => { return None; },
        Some(v) => v,
    };
    let (notes, i4) = match parse_string_exec(s, i3) {
        None => { return None; },
        Some(v) => v,
    };
    let i5 = match expect_lit(s, i4, ",\n  \"pub_date\": \"") {
        None => { return None; },
        Some(v) => v,
    };
    let (pub_date, i6) = match parse_string_exec(s, i5) {
        None => { return None; },
        Some(v) => v,
    };
    let i7 = match expect_lit(s, i6, ",\n  \"platforms\": ") {
        None => { return None; },
        Some(v) => v,
    };
    let (platforms, i8) = match parse_platforms_exec(s, i7) {
        None => { return None; },
        Some(v) => v,
    };
    let i9 = match expect_lit(s, i8, "\n}") {
        None => { return None; },
        Some(v) => v,
    };
    if i9 != s.unicode_len() {
        return None;
    }
    Some(Manifest { version, notes, pub_date, platforms })
}

} // verus!
