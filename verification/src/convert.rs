//! The converter: turns the decoded entries of a JSON object into
//! `.env`-style text, one `UPPERCASED_KEY=value` line per entry.

use vstd::prelude::*;

verus! {

/// One top-level entry of the decoded JSON object: its key, the compact JSON
/// text of its value, and whether that value is a JSON string.
pub struct Entry {
    pub key: String,
    pub text: String,
    pub is_string: bool,
}

/// The mathematical model of one entry: (key, value text, value is a string).
pub type EntryModel = (Seq<char>, Seq<char>, bool);

/// The model of a sequence of decoded entries.
pub open spec fn entries_model(entries: Seq<Entry>) -> Seq<EntryModel> {
    entries.map_values(|e: Entry| (e.key@, e.text@, e.is_string))
}

/// What `str::to_uppercase` returns: a function of the characters alone
/// (Unicode uppercasing, not locale-dependent).
pub uninterp spec fn upper_of(s: Seq<char>) -> Seq<char>;

/// Relies on `str::to_uppercase`: its result depends on the characters of `s`
/// alone, and is named `upper_of`. Uppercasing maps each character to its
/// uppercase form (or keeps it), and no uppercase mapping yields a control
/// character, so a text without a newline uppercases to a text without one.
#[verifier::external_body]
fn uppercase(s: &str) -> (r: String)
    ensures
        r@ == upper_of(s@),
        newline_free(s@) ==> newline_free(r@),
{
    s.to_uppercase()
}

/// The text with every quote character removed and everything else kept in
/// order: a textual strip, not JSON unescaping, so an escaped quote `\"` loses
/// its quote and keeps its backslash.
pub open spec fn without_quotes(s: Seq<char>) -> Seq<char>
    decreases s.len(),
{
    if s.len() == 0 {
        Seq::<char>::empty()
    } else if s[0] == '"' {
        without_quotes(s.drop_first())
    } else {
        seq![s[0]] + without_quotes(s.drop_first())
    }
}

/// Quotes are removed piecewise over a concatenation.
pub proof fn lemma_without_quotes_concat(a: Seq<char>, b: Seq<char>)
    ensures
        without_quotes(a + b) == without_quotes(a) + without_quotes(b),
    decreases a.len(),
{
    if a.len() == 0 {
        assert(a + b =~= b);
        assert(without_quotes(a) + without_quotes(b) =~= without_quotes(b));
    } else {
        assert((a + b).drop_first() =~= a.drop_first() + b);
        lemma_without_quotes_concat(a.drop_first(), b);
        if a[0] != '"' {
            assert(seq![a[0]] + (without_quotes(a.drop_first()) + without_quotes(b))
                =~= (seq![a[0]] + without_quotes(a.drop_first())) + without_quotes(b));
        }
    }
}

/// No quote character survives the strip.
pub proof fn lemma_without_quotes_quote_free(s: Seq<char>)
    ensures
        forall|j: int| 0 <= j < without_quotes(s).len() ==> without_quotes(s)[j] != '"',
    decreases s.len(),
{
    if s.len() > 0 {
        lemma_without_quotes_quote_free(s.drop_first());
        assert forall|j: int| 0 <= j < without_quotes(s).len() implies without_quotes(s)[j]
            != '"' by {
            if s[0] != '"' && j > 0 {
                assert(without_quotes(s)[j] == without_quotes(s.drop_first())[j - 1]);
            }
        }
    }
}

/// The strip removes no newline and adds none.
pub proof fn lemma_without_quotes_newline_free(s: Seq<char>)
    requires
        newline_free(s),
    ensures
        newline_free(without_quotes(s)),
    decreases s.len(),
{
    if s.len() > 0 {
        assert forall|j: int| 0 <= j < s.drop_first().len() implies s.drop_first()[j]
            != '\n' by {
            assert(s.drop_first()[j] == s[j + 1]);
        }
        lemma_without_quotes_newline_free(s.drop_first());
        assert forall|j: int| 0 <= j < without_quotes(s).len() implies without_quotes(s)[j]
            != '\n' by {
            if s[0] != '"' && j > 0 {
                assert(without_quotes(s)[j] == without_quotes(s.drop_first())[j - 1]);
            }
        }
    }
}

/// How a value's JSON text appears on its line: a string value loses every
/// quote character of its serialized form (the surrounding quotes and any
/// embedded, escaped ones — backslashes stay), any other value appears verbatim.
pub open spec fn rendered_value(text: Seq<char>, is_string: bool) -> Seq<char> {
    if is_string {
        without_quotes(text)
    } else {
        text
    }
}

/// A newline-free value text renders as newline-free.
pub proof fn lemma_rendered_newline_free(text: Seq<char>, is_string: bool)
    requires
        newline_free(text),
    ensures
        newline_free(rendered_value(text, is_string)),
{
    if is_string {
        lemma_without_quotes_newline_free(text);
    }
}

/// The output line of one entry: `UPPER(KEY)=value` and a newline.
pub open spec fn env_line(e: EntryModel) -> Seq<char> {
    upper_of(e.0) + seq!['='] + rendered_value(e.1, e.2) + seq!['\n']
}

/// The whole output text: the lines of the entries, in order.
pub open spec fn env_text(entries: Seq<EntryModel>) -> Seq<char>
    decreases entries.len(),
{
    if entries.len() == 0 {
        Seq::<char>::empty()
    } else {
        env_line(entries[0]) + env_text(entries.drop_first())
    }
}

/// The output text of a concatenation is the concatenation of the output texts.
pub proof fn lemma_env_text_concat(a: Seq<EntryModel>, b: Seq<EntryModel>)
    ensures
        env_text(a + b) == env_text(a) + env_text(b),
    decreases a.len(),
{
    if a.len() == 0 {
        assert(a + b =~= b);
        assert(env_text(a) + env_text(b) =~= env_text(b));
    } else {
        assert((a + b).drop_first() =~= a.drop_first() + b);
        lemma_env_text_concat(a.drop_first(), b);
        assert(env_line((a + b)[0]) + (env_text(a.drop_first()) + env_text(b))
            =~= (env_line(a[0]) + env_text(a.drop_first())) + env_text(b));
    }
}

/// The output text of a single entry is exactly its line.
pub proof fn lemma_env_text_singleton(e: EntryModel)
    ensures
        env_text(seq![e]) == env_line(e),
{
    let s = seq![e];
    assert(s.drop_first() =~= Seq::<EntryModel>::empty());
    assert(env_text(s.drop_first()) =~= Seq::<char>::empty());
    assert(env_text(s) == env_line(s[0]) + env_text(s.drop_first()));
    assert(env_line(s[0]) + env_text(s.drop_first()) =~= env_line(e));
}

/// Law: every entry contributes exactly its own line, in order — the output
/// text splits around entry `i` into the lines of the entries before it, the
/// line `UPPER(KEY)=value` of entry `i` itself, and the lines of the entries
/// after it.
pub proof fn lemma_line_per_entry(entries: Seq<EntryModel>, i: int)
    requires
        0 <= i < entries.len(),
    ensures
        env_text(entries) == env_text(entries.take(i)) + env_line(entries[i])
            + env_text(entries.skip(i + 1)),
{
    let mid = seq![entries[i]];
    assert(entries =~= entries.take(i) + (mid + entries.skip(i + 1)));
    lemma_env_text_concat(entries.take(i), mid + entries.skip(i + 1));
    lemma_env_text_concat(mid, entries.skip(i + 1));
    lemma_env_text_singleton(entries[i]);
    assert(env_text(entries.take(i)) + (env_line(entries[i]) + env_text(entries.skip(i + 1)))
        =~= env_text(entries.take(i)) + env_line(entries[i]) + env_text(entries.skip(i + 1)));
}

/// Whether a piece of text contains no newline character.
pub open spec fn newline_free(s: Seq<char>) -> bool {
    forall|j: int| 0 <= j < s.len() ==> s[j] != '\n'
}

/// How many newline characters a piece of text contains.
pub open spec fn newline_count(s: Seq<char>) -> nat
    decreases s.len(),
{
    if s.len() == 0 {
        0
    } else {
        (if s[0] == '\n' { 1nat } else { 0nat }) + newline_count(s.drop_first())
    }
}

/// Newlines are counted piecewise over a concatenation.
pub proof fn lemma_newline_count_concat(a: Seq<char>, b: Seq<char>)
    ensures
        newline_count(a + b) == newline_count(a) + newline_count(b),
    decreases a.len(),
{
    if a.len() == 0 {
        assert(a + b =~= b);
    } else {
        assert((a + b).drop_first() =~= a.drop_first() + b);
        lemma_newline_count_concat(a.drop_first(), b);
    }
}

/// Text without a newline has a newline count of zero.
pub proof fn lemma_newline_free_count(s: Seq<char>)
    requires
        newline_free(s),
    ensures
        newline_count(s) == 0,
    decreases s.len(),
{
    if s.len() > 0 {
        assert(newline_free(s.drop_first()));
        lemma_newline_free_count(s.drop_first());
    }
}

/// An entry whose uppercased key and rendered value are newline-free yields a
/// line with exactly one newline: the one that ends it.
pub proof fn lemma_env_line_one_newline(e: EntryModel)
    requires
        newline_free(upper_of(e.0)),
        newline_free(rendered_value(e.1, e.2)),
    ensures
        newline_count(env_line(e)) == 1,
{
    let u = upper_of(e.0);
    let eqs = seq!['='];
    let r = rendered_value(e.1, e.2);
    let nl = seq!['\n'];
    lemma_newline_free_count(u);
    assert(newline_free(eqs));
    lemma_newline_free_count(eqs);
    lemma_newline_free_count(r);
    assert(nl.drop_first() =~= Seq::<char>::empty());
    assert(newline_count(Seq::<char>::empty()) == 0);
    assert(newline_count(nl) == 1);
    lemma_newline_count_concat(u, eqs);
    lemma_newline_count_concat(u + eqs, r);
    lemma_newline_count_concat(u + eqs + r, nl);
}

/// Law: one line per entry — as long as no uppercased key and no rendered
/// value contains a newline, the output text holds exactly as many newlines,
/// and so exactly as many lines, as the object has entries.
pub proof fn lemma_one_line_per_entry(entries: Seq<EntryModel>)
    requires
        forall|k: int| 0 <= k < entries.len() ==> newline_free(upper_of((#[trigger] entries[k]).0))
            && newline_free(rendered_value(entries[k].1, entries[k].2)),
    ensures
        newline_count(env_text(entries)) == entries.len(),
    decreases entries.len(),
{
    if entries.len() > 0 {
        let rest = entries.drop_first();
        lemma_env_line_one_newline(entries[0]);
        lemma_newline_count_concat(env_line(entries[0]), env_text(rest));
        assert forall|k: int| 0 <= k < rest.len() implies newline_free(upper_of(
            (#[trigger] rest[k]).0)) && newline_free(rendered_value(rest[k].1, rest[k].2)) by {
            assert(rest[k] == entries[k + 1]);
        }
        lemma_one_line_per_entry(rest);
    }
}

/// Law: a non-string value's JSON text appears on its line verbatim, unchanged.
pub proof fn lemma_non_string_verbatim(text: Seq<char>)
    ensures
        rendered_value(text, false) == text,
{
}

/// Law: a string value's JSON text loses every quote character — the
/// surrounding quotes and any embedded, escaped ones — so no quote survives;
/// everything else, escape backslashes included, stays in order.
pub proof fn lemma_string_quotes_stripped(text: Seq<char>)
    ensures
        rendered_value(text, true) == without_quotes(text),
        forall|j: int| 0 <= j < rendered_value(text, true).len()
            ==> rendered_value(text, true)[j] != '"',
{
    lemma_without_quotes_quote_free(text);
}

/// Renders a value's JSON text as it appears after `=` on its line.
pub fn render_value(text: &str, is_string: bool) -> (r: String)
    ensures
        r@ == rendered_value(text@, is_string),
{
    if !is_string {
        return text.to_owned();
    }
    let n = text.unicode_len();
    let mut out = String::new();
    let mut i: usize = 0;
    proof {
        assert(text@.take(0) =~= Seq::<char>::empty());
    }
    while i < n
        invariant
            n == text@.len(),
            i <= n,
            out@ == without_quotes(text@.take(i as int)),
        decreases n - i,
    {
        let c = text.get_char(i);
        if c != '"' {
            let piece = text.substring_char(i, i + 1);
            out.append(piece);
        }
        proof {
            let ghost single = seq![text@[i as int]];
            assert(text@.take(i + 1) =~= text@.take(i as int) + single);
            lemma_without_quotes_concat(text@.take(i as int), single);
            assert(single.drop_first() =~= Seq::<char>::empty());
            assert(without_quotes(Seq::<char>::empty()) =~= Seq::<char>::empty());
            if c != '"' {
                assert(without_quotes(single) =~= single);
                assert(text@.subrange(i as int, i + 1) =~= single);
            } else {
                assert(without_quotes(single) =~= Seq::<char>::empty());
            }
            assert(out@ =~= without_quotes(text@.take(i + 1)));
        }
        i += 1;
    }
    proof {
        assert(text@.take(n as int) =~= text@);
    }
    out
}

/// Encodes the decoded entries as `.env`-style text, one line per entry, in
/// order. When every key and every value text is newline-free, the output holds
/// exactly one newline — one line — per entry.
pub fn encode_entries(entries: &Vec<Entry>) -> (out: String)
    ensures
        out@ == env_text(entries_model(entries@)),
        (forall|k: int| 0 <= k < entries@.len()
            ==> newline_free((#[trigger] entries_model(entries@)[k]).0)
                && newline_free(entries_model(entries@)[k].1))
            ==> newline_count(out@) == entries@.len(),
{
    let ghost model = entries_model(entries@);
    let mut out = String::new();
    let mut i: usize = 0;
    proof {
        assert(model.take(0) =~= Seq::<EntryModel>::empty());
    }
    while i < entries.len()
        invariant
            i <= entries.len(),
            model == entries_model(entries@),
            model.len() == entries@.len(),
            out@ == env_text(model.take(i as int)),
            forall|k: int| 0 <= k < i ==> (newline_free((#[trigger] model[k]).0)
                ==> newline_free(upper_of(model[k].0))),
        decreases entries.len() - i,
    {
        let e = &entries[i];
        let upper = uppercase(e.key.as_str());
        let rendered = render_value(e.text.as_str(), e.is_string);
        out.append(upper.as_str());
        out.append("=");
        out.append(rendered.as_str());
        out.append("\n");
        proof {
            reveal_strlit("=");
            reveal_strlit("\n");
            assert("="@ =~= seq!['=']);
            assert("\n"@ =~= seq!['\n']);
            assert(model.take(i + 1) =~= model.take(i as int) + seq![model[i as int]]);
            lemma_env_text_concat(model.take(i as int), seq![model[i as int]]);
            lemma_env_text_singleton(model[i as int]);
            assert(model[i as int] == (entries@[i as int].key@, entries@[i as int].text@,
                entries@[i as int].is_string));
            assert(out@ =~= env_text(model.take(i + 1)));
        }
        i += 1;
    }
    proof {
        assert(model.take(entries@.len() as int) =~= model);
        if forall|k: int| 0 <= k < model.len() ==> newline_free((#[trigger] model[k]).0)
            && newline_free(model[k].1) {
            assert forall|k: int| 0 <= k < model.len() implies newline_free(upper_of(
                (#[trigger] model[k]).0)) && newline_free(rendered_value(model[k].1,
                model[k].2)) by {
                assert(newline_free(model[k].0) && newline_free(model[k].1));
                lemma_rendered_newline_free(model[k].1, model[k].2);
            }
            lemma_one_line_per_entry(model);
        }
    }
    out
}

} // verus!
