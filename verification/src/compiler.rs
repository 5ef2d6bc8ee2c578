//! The template-compiler collaborator's boundary.

use vstd::prelude::*;

verus! {

/// The text the template-compiler collaborator produces for one pair of
/// source texts. The collaborator is a pure function of the two texts
/// alone, so its output is named rather than spelled out.
pub uninterp spec fn spec_generated(struct_source: Seq<char>, template_source: Seq<char>) -> Seq<char>;

/// Relies on proc_macro2 (`Literal::string`, lexing a token stream), syn
/// (`parse2` of a source file) and prettyplease (`unparse`): together the
/// template-compiler collaborator. Each stage is a pure function of its
/// input; a failure at any stage becomes diagnostic text in the result, so
/// the call never panics and never throws past this boundary.
#[verifier::external_body]
fn run_compiler(struct_source: &str, template_source: &str) -> (r: String)
    ensures
        r@ == spec_generated(struct_source@, template_source@),
{
    let attr = format!("#[template(source = {})]", proc_macro2::Literal::string(template_source));
    let mut code: proc_macro2::TokenStream = match attr.parse() {
        Ok(tokens) => tokens,
        Err(_) => proc_macro2::TokenStream::new(),
    };
    code.extend(struct_source.parse::<proc_macro2::TokenStream>());
    match syn::parse2::<syn::File>(code) {
        Ok(file) => prettyplease::unparse(&file),
        Err(err) => err.to_string(),
    }
}

/// Relies on `std::time::SystemTime::now` for a wall-clock reading in
/// milliseconds; nothing is assumed of the returned value.
#[verifier::external_body]
fn now_millis() -> u64 {
    match std::time::SystemTime::now().duration_since(std::time::UNIX_EPOCH) {
        Ok(d) => d.as_millis() as u64,
        Err(_) => 0,
    }
}

/// Compiles one pair of sources through the collaborator.
///
/// Malformed input is not an error here: the collaborator's diagnostic text
/// is the generated text.
pub fn compile(struct_source: &str, template_source: &str) -> (r: String)
    ensures
        r@ == spec_generated(struct_source@, template_source@),
{
    run_compiler(struct_source, template_source)
}

/// Compiles one pair of sources and measures the wall-clock duration of
/// the collaborator call, in milliseconds. The duration is `None` when the
/// clock was unusable (it went backwards during the call).
pub fn compile_timed(struct_source: &str, template_source: &str) -> (r: (String, Option<u64>))
    ensures
        r.0@ == spec_generated(struct_source@, template_source@),
{
    let start = now_millis();
    let code = run_compiler(struct_source, template_source);
    let end = now_millis();
    let duration = if end >= start {
        Some(end - start)
    } else {
        None
    };
    (code, duration)
}

} // verus!
