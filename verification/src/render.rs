//! Template rendering through the `handlebars` crate, over a plain
//! key/value context.
use vstd::prelude::*;

use crate::GobiError;
use crate::GobiResult;
use handlebars::Context;
use handlebars::Handlebars;
use handlebars::Helper;
use handlebars::HelperResult;
use handlebars::Output;
use handlebars::RenderContext;

verus! {

/// The text that rendering a template over a context yields, or the error
/// text where the template is rejected. Later pairs of the context shadow
/// earlier ones under the same key. `explicit_only` keeps placeholders
/// without a value as they stand instead of dropping them.
pub uninterp spec fn rendered(
    template: Seq<char>,
    context: Seq<(Seq<char>, Seq<char>)>,
    explicit_only: bool,
) -> Result<Seq<char>, Seq<char>>;

/// The views of a key/value context.
pub open spec fn context_views(s: Seq<(String, String)>) -> Seq<(Seq<char>, Seq<char>)> {
    s.map_values(|p: (String, String)| (p.0@, p.1@))
}

/// Whether the template holds a placeholder opener. Text without one is raw
/// and renders to itself.
pub open spec fn has_placeholder(t: Seq<char>) -> bool {
    exists|i: int| 0 <= i && i + 1 < t.len() && #[trigger] t[i] == '{' && t[i + 1] == '{'
}

/// Relies on std's BTreeMap collect: the context pairs as the ordered map
/// handed to the renderer.
#[verifier::external_body]
fn context_map(context: &Vec<(String, String)>) -> std::collections::BTreeMap<String, String> {
    context.iter().map(|(k, v)| (k.clone(), v.clone())).collect()
}

/// Relies on handlebars::Handlebars::render_template: the rendered text
/// depends on the template and the context values alone; placeholders
/// without a value are dropped; a template without a placeholder opener is
/// raw text and is emitted verbatim.
#[verifier::external_body]
fn render_plain(template: &str, context: &Vec<(String, String)>) -> (r: Result<String, String>)
    ensures
        match (r, rendered(template@, context_views(context@), false)) {
            (Ok(s), Ok(t)) => s@ == t && (!has_placeholder(template@) ==> s@ == template@),
            (Err(e), Err(f)) => e@ == f && has_placeholder(template@),
            _ => false,
        },
{
    let reg = Handlebars::new();
    reg.render_template(template, &context_map(context)).map_err(|e| e.to_string())
}

/// Relies on handlebars::Handlebars::render_template, with a helper that
/// writes unknown placeholders back out unchanged: the rendered text depends
/// on the template and the context values alone; a template without a
/// placeholder opener is raw text and is emitted verbatim.
#[verifier::external_body]
fn render_keeping_missing(template: &str, context: &Vec<(String, String)>) -> (r: Result<
    String,
    String,
>)
    ensures
        match (r, rendered(template@, context_views(context@), true)) {
            (Ok(s), Ok(t)) => s@ == t && (!has_placeholder(template@) ==> s@ == template@),
            (Err(e), Err(f)) => e@ == f && has_placeholder(template@),
            _ => false,
        },
{
    let mut reg = Handlebars::new();
    let keep = |h: &Helper<'_>, _: &Handlebars<'_>, _: &Context, _: &mut RenderContext<'_, '_>, out: &mut dyn Output| -> HelperResult {
        let params = h.params().iter().map(|p| format!("'{}'", p.render())).collect::<Vec<_>>().join(" ");
        write!(out, "{{{{ {} {} }}}}", h.name(), params)?;
        Ok(())
    };
    reg.register_helper("helperMissing", Box::new(keep));
    reg.render_template(template, &context_map(context)).map_err(|e| e.to_string())
}

/// Render a template over a key/value context. A rejected template is
/// reported with code 1 and the renderer's error text behind a fixed
/// heading.
pub fn render_template(template: &str, context: &Vec<(String, String)>, explicit_only: bool) -> (r:
    GobiResult<String>)
    ensures
        match (r, rendered(template@, context_views(context@), explicit_only)) {
            (Ok(s), Ok(t)) => s@ == t && (!has_placeholder(template@) ==> s@ == template@),
            (Err(e), Err(f)) => e.code == 1 && e.msg@ == "Failed to render template: "@ + f
                && has_placeholder(template@),
            _ => false,
        },
{
    let attempt = if explicit_only {
        render_keeping_missing(template, context)
    } else {
        render_plain(template, context)
    };
    match attempt {
        Ok(s) => Ok(s),
        Err(e) => {
            let mut msg = "Failed to render template: ".to_owned();
            msg.append(e.as_str());
            proof {
                reveal_strlit("Failed to render template: ");
            }
            Err(GobiError { code: 1, msg })
        },
    }
}

} // verus!
