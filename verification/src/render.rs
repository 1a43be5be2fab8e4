//! The annotated renderer: the whole token stream as markup.

use vstd::prelude::*;
use vstd::string::StringExecFns;
use std::collections::HashMap;
use crate::model::{Token, TokenView, token_views};
use crate::escape::{encode_attribute, encode_text, escaped, escaped_attribute};

verus! {

/// The element of one token: its feature, escaped as an attribute value, as the
/// tooltip, the class `alert` or none, its escaped surface as the content, then
/// the separator.
pub open spec fn element(t: TokenView, alert: bool) -> Seq<char> {
    "<span title='"@ + escaped_attribute(t.feature) + "' class='"@ + (if alert {
        "alert"@
    } else {
        Seq::<char>::empty()
    }) + "'>"@ + escaped(t.surface) + "</span>"@ + "<span class='separator'>|</span>"@
}

/// The elements of the first `n` tokens, one after the other in stream order;
/// `alert` says which places are flagged.
pub open spec fn body(ts: Seq<TokenView>, alert: spec_fn(int) -> bool, n: int) -> Seq<char>
    decreases n,
{
    if n <= 0 {
        Seq::empty()
    } else {
        body(ts, alert, n - 1) + element(ts[n - 1], alert(n - 1))
    }
}

/// The markup of a stream: the opening of the wrapper, the body, its closing.
pub open spec fn page(ts: Seq<TokenView>, alert: spec_fn(int) -> bool) -> Seq<char> {
    "<div class=\"novel-body\">"@ + body(ts, alert, ts.len() as int) + "</div>"@
}

/// A token is flagged when an annotation is filed under its start and the
/// distance in it is below the threshold.
pub open spec fn flagged(ann: Map<usize, usize>, threshold: usize, t: TokenView) -> bool {
    ann.contains_key(t.span.start) && ann[t.span.start] < threshold
}

/// The places of `ts` that `ann` flags.
pub open spec fn flags(ann: Map<usize, usize>, threshold: usize, ts: Seq<TokenView>) -> spec_fn(
    int,
) -> bool {
    |i: int| flagged(ann, threshold, ts[i])
}

/// Two bodies are the same where the flags agree on every place in them.
pub proof fn lemma_body_agrees(
    ts: Seq<TokenView>,
    a: spec_fn(int) -> bool,
    b: spec_fn(int) -> bool,
    n: int,
)
    requires
        forall|i: int| 0 <= i < n ==> #[trigger] a(i) == b(i),
    ensures
        body(ts, a, n) == body(ts, b, n),
    decreases n,
{
    if n > 0 {
        lemma_body_agrees(ts, a, b, n - 1);
    }
}

/// Renders every token of `tokens` in order, flagged as `annotations` and
/// `threshold` say.
pub fn render(tokens: &Vec<Token>, annotations: &HashMap<usize, usize>, threshold: usize) -> (out:
    String)
    ensures
        out@ == page(token_views(tokens@), flags(annotations@, threshold, token_views(tokens@))),
{
    let ghost ts = token_views(tokens@);
    let ghost alert = flags(annotations@, threshold, ts);
    let mut out = String::new();
    out.append("<div class=\"novel-body\">");
    let ghost head = out@;
    let mut n: usize = 0;
    while n < tokens.len()
        invariant
            n <= tokens.len(),
            ts == token_views(tokens@),
            alert == flags(annotations@, threshold, ts),
            out@ == head + body(ts, alert, n as int),
        decreases tokens.len() - n,
    {
        let token = &tokens[n];
        let ghost before = out@;
        let is_alert = match annotations.get(&token.span.start) {
            Some(d) => *d < threshold,
            None => false,
        };
        assert(ts[n as int] == token@);
        assert(is_alert == alert(n as int));
        out.append("<span title='");
        out.append(encode_attribute(token.feature.as_str()).as_str());
        out.append("' class='");
        if is_alert {
            out.append("alert");
        }
        out.append("'>");
        out.append(encode_text(token.surface.as_str()).as_str());
        out.append("</span>");
        out.append("<span class='separator'>|</span>");
        assert(out@ =~= before + element(token@, is_alert));
        assert(out@ =~= head + (body(ts, alert, n as int) + element(ts[n as int], alert(n as int))));
        n += 1;
    }
    out.append("</div>");
    out
}

} // verus!
