//! The function extractor: parses a source text through syn and yields,
//! for each top-level function definition in source order, the exact
//! source slice of the definition and the documentation lines attached
//! to it. The parse itself and the reads of syn's syntax tree are
//! trusted wrappers; the collection bookkeeping is verified.

use vstd::prelude::*;

verus! {

use syn::spanned::Spanned;
use crate::text::str_eq;

/// syn's item type, opaque to the verifier.
#[verifier::external_type_specification]
#[verifier::external_body]
pub struct ExItem(syn::Item);

/// syn's attribute type, opaque to the verifier.
#[verifier::external_type_specification]
#[verifier::external_body]
pub struct ExAttribute(syn::Attribute);

/// The name=value shape of an attribute: the attribute's single-segment
/// path and its string-literal value, where the attribute has exactly
/// that shape; a documentation line is the shape whose path is `doc`.
pub uninterp spec fn attr_name_value(a: syn::Attribute) -> Option<(Seq<char>, Seq<char>)>;

/// The function shape of a parsed item: what the extractor reads of a
/// top-level function definition.
pub ghost struct FnShape {
    /// The item's source slice, where the parser kept one for its span.
    pub text: Option<Seq<char>>,
    /// The name=value shape of each of the item's attributes, in order.
    pub attrs: Seq<Option<(Seq<char>, Seq<char>)>>,
}

/// The function shape of an item: present exactly where the item is a
/// function definition.
pub uninterp spec fn item_fn_shape(i: syn::Item) -> Option<FnShape>;

/// Whether syn accepts `s` as a Rust source file.
pub uninterp spec fn parse_ok(s: Seq<char>) -> bool;

/// The items of the file syn parses from `s`, by their function shape,
/// in source order.
pub uninterp spec fn parsed_items(s: Seq<char>) -> Seq<Option<FnShape>>;

/// Relies on `syn::parse_file`: parses the text as a Rust source file
/// and hands back the file's items in source order; an error carries
/// syn's message and means syn rejected the text.
#[verifier::external_body]
fn parse_items(src: &str) -> (r: Result<Vec<syn::Item>, String>)
    ensures
        (r is Ok) == parse_ok(src@),
        r matches Ok(items) ==> items@.map_values(|it: syn::Item| item_fn_shape(it))
            == parsed_items(src@),
{
    match syn::parse_file(src) {
        Ok(f) => Ok(f.items),
        Err(e) => Err(e.to_string()),
    }
}

/// The view of an optional owned string.
pub open spec fn opt_str_view(o: Option<String>) -> Option<Seq<char>> {
    match o {
        Some(s) => Some(s@),
        None => None,
    }
}

/// Builds the function shape with the given parts.
pub open spec fn fn_shape(
    text: Option<Seq<char>>,
    attrs: Seq<Option<(Seq<char>, Seq<char>)>>,
) -> FnShape {
    FnShape { text, attrs }
}

/// Relies on `syn::Item` and `syn::spanned::Spanned`: tells the function
/// variant of an item apart, and reads the function's original source
/// slice off its span; the function's attributes come out unchanged.
#[verifier::external_body]
fn item_fn_parts(item: &syn::Item) -> (r: Option<(Option<String>, Vec<syn::Attribute>)>)
    ensures
        (r is Some) == (item_fn_shape(*item) is Some),
        r matches Some(parts) ==> item_fn_shape(*item) == Some(
            fn_shape(
                opt_str_view(parts.0),
                parts.1@.map_values(|a: syn::Attribute| attr_name_value(a)),
            ),
        ),
{
    match item {
        syn::Item::Fn(f) => Some((f.span().source_text(), f.attrs.clone())),
        _ => None,
    }
}

/// The view of an optional pair of owned strings.
pub open spec fn opt_pair_view(o: Option<(String, String)>) -> Option<(Seq<char>, Seq<char>)> {
    match o {
        Some(p) => Some((p.0@, p.1@)),
        None => None,
    }
}

/// Relies on `syn::Meta`, `syn::Expr` and `syn::Lit`: an attribute
/// written with a single-segment path, an equals sign and a string
/// literal comes out as the path and the literal's value; any other
/// shape comes out as nothing.
#[verifier::external_body]
fn attr_parts(a: &syn::Attribute) -> (r: Option<(String, String)>)
    ensures
        attr_name_value(*a) == opt_pair_view(r),
{
    match &a.meta {
        syn::Meta::NameValue(nv) => match (nv.path.get_ident(), &nv.value) {
            (Some(id), syn::Expr::Lit(el)) => match &el.lit {
                syn::Lit::Str(s) => Some((id.to_string(), s.value())),
                _ => None,
            },
            _ => None,
        },
        _ => None,
    }
}

/// One extracted function: its exact source slice and the documentation
/// lines attached to it, in order.
pub struct FunctionItem {
    pub text: String,
    pub docs: Vec<String>,
}

/// The mathematical view of an extracted function.
pub ghost struct FunctionItemView {
    pub text: Seq<char>,
    pub docs: Seq<Seq<char>>,
}

impl View for FunctionItem {
    type V = FunctionItemView;

    open spec fn view(&self) -> FunctionItemView {
        FunctionItemView { text: self.text@, docs: self.docs.deep_view() }
    }
}

/// The documentation lines among the attribute shapes: the values of the
/// attributes written `doc = "..."`, in order.
pub open spec fn doc_lines_of(attrs: Seq<Option<(Seq<char>, Seq<char>)>>) -> Seq<Seq<char>>
    decreases attrs.len(),
{
    if attrs.len() == 0 {
        Seq::empty()
    } else {
        (match attrs[0] {
            Some(p) => if p.0 == "doc"@ {
                seq![p.1]
            } else {
                Seq::empty()
            },
            None => Seq::empty(),
        }) + doc_lines_of(attrs.skip(1))
    }
}

/// The extracted functions among the item shapes, in order: one view per
/// function item, carrying its source slice and its documentation lines.
pub open spec fn functions_of(items: Seq<Option<FnShape>>) -> Seq<FunctionItemView>
    decreases items.len(),
{
    if items.len() == 0 {
        Seq::empty()
    } else {
        (match items[0] {
            Some(fs) => match fs.text {
                Some(t) => seq![FunctionItemView { text: t, docs: doc_lines_of(fs.attrs) }],
                None => Seq::empty(),
            },
            None => Seq::empty(),
        }) + functions_of(items.skip(1))
    }
}

/// Every function item among `items` kept its source slice.
pub open spec fn spans_kept(items: Seq<Option<FnShape>>) -> bool {
    forall|i: int|
        0 <= i < items.len() ==> (match #[trigger] items[i] {
            Some(fs) => fs.text is Some,
            None => true,
        })
}

/// The number of function items among `items`.
pub open spec fn fn_count(items: Seq<Option<FnShape>>) -> nat
    decreases items.len(),
{
    if items.len() == 0 {
        0
    } else {
        (if items[0] is Some {
            1nat
        } else {
            0nat
        }) + fn_count(items.skip(1))
    }
}

/// Law: where every function item kept its source slice, extraction
/// yields exactly one item per top-level function item — no function is
/// dropped and none is invented.
pub proof fn lemma_functions_count(items: Seq<Option<FnShape>>)
    requires
        spans_kept(items),
    ensures
        functions_of(items).len() == fn_count(items),
    decreases items.len(),
{
    if items.len() > 0 {
        assert forall|i: int| 0 <= i < items.skip(1).len() implies (match #[trigger] items.skip(
            1,
        )[i] {
            Some(fs) => fs.text is Some,
            None => true,
        }) by {
            assert(items.skip(1)[i] == items[i + 1]);
        }
        lemma_functions_count(items.skip(1));
    }
}

/// Why extraction failed.
#[derive(Debug)]
pub enum ExtractError {
    /// syn rejected the text; the message is syn's.
    Parse { message: String },
    /// The parser kept no source text for a function's span.
    NoSourceText,
}

proof fn lemma_doc_lines_of_snoc(attrs: Seq<Option<(Seq<char>, Seq<char>)>>, x: Option<(Seq<char>, Seq<char>)>)
    ensures
        doc_lines_of(attrs.push(x)) == doc_lines_of(attrs) + (match x {
            Some(p) => if p.0 == "doc"@ {
                seq![p.1]
            } else {
                Seq::<Seq<char>>::empty()
            },
            None => Seq::<Seq<char>>::empty(),
        }),
    decreases attrs.len(),
{
    reveal_with_fuel(doc_lines_of, 3);
    let tail = (match x {
        Some(p) => if p.0 == "doc"@ {
            seq![p.1]
        } else {
            Seq::<Seq<char>>::empty()
        },
        None => Seq::<Seq<char>>::empty(),
    });
    if attrs.len() == 0 {
        assert(attrs.push(x)[0] == x);
        assert(attrs.push(x).skip(1) =~= Seq::<Option<(Seq<char>, Seq<char>)>>::empty());
        assert(doc_lines_of(attrs.push(x)) =~= doc_lines_of(attrs) + tail);
    } else {
        assert(attrs.push(x)[0] == attrs[0]);
        assert(attrs.push(x).skip(1) =~= attrs.skip(1).push(x));
        lemma_doc_lines_of_snoc(attrs.skip(1), x);
        assert(doc_lines_of(attrs.push(x)) =~= doc_lines_of(attrs) + tail);
    }
}

proof fn lemma_functions_of_snoc(items: Seq<Option<FnShape>>, x: Option<FnShape>)
    ensures
        functions_of(items.push(x)) == functions_of(items) + (match x {
            Some(fs) => match fs.text {
                Some(t) => seq![FunctionItemView { text: t, docs: doc_lines_of(fs.attrs) }],
                None => Seq::<FunctionItemView>::empty(),
            },
            None => Seq::<FunctionItemView>::empty(),
        }),
    decreases items.len(),
{
    reveal_with_fuel(functions_of, 3);
    let tail = (match x {
        Some(fs) => match fs.text {
            Some(t) => seq![FunctionItemView { text: t, docs: doc_lines_of(fs.attrs) }],
            None => Seq::<FunctionItemView>::empty(),
        },
        None => Seq::<FunctionItemView>::empty(),
    });
    if items.len() == 0 {
        assert(items.push(x)[0] == x);
        assert(items.push(x).skip(1) =~= Seq::<Option<FnShape>>::empty());
        assert(functions_of(items.push(x)) =~= functions_of(items) + tail);
    } else {
        assert(items.push(x)[0] == items[0]);
        assert(items.push(x).skip(1) =~= items.skip(1).push(x));
        lemma_functions_of_snoc(items.skip(1), x);
        assert(functions_of(items.push(x)) =~= functions_of(items) + tail);
    }
}

/// The documentation lines carried by the given attributes, in order.
fn collect_docs(attrs: &Vec<syn::Attribute>) -> (r: Vec<String>)
    ensures
        r.deep_view() == doc_lines_of(
            attrs@.map_values(|a: syn::Attribute| attr_name_value(a)),
        ),
{
    let ghost shapes = attrs@.map_values(|a: syn::Attribute| attr_name_value(a));
    let mut r: Vec<String> = Vec::new();
    let mut i: usize = 0;
    proof {
        assert(shapes.take(0) =~= Seq::<Option<(Seq<char>, Seq<char>)>>::empty());
    }
    while i < attrs.len()
        invariant
            shapes == attrs@.map_values(|a: syn::Attribute| attr_name_value(a)),
            i <= attrs@.len(),
            r.deep_view() == doc_lines_of(shapes.take(i as int)),
        decreases attrs@.len() - i,
    {
        let ghost r0 = r.deep_view();
        match attr_parts(&attrs[i]) {
            Some(p) => {
                if str_eq(p.0.as_str(), "doc") {
                    r.push(p.1);
                    proof {
                        assert(r.deep_view() =~= r0.push(p.1@));
                    }
                }
            },
            None => {},
        }
        proof {
            assert(shapes[i as int] == attr_name_value(attrs@[i as int]));
            assert(shapes.take(i + 1) =~= shapes.take(i as int).push(shapes[i as int]));
            lemma_doc_lines_of_snoc(shapes.take(i as int), shapes[i as int]);
        }
        i = i + 1;
    }
    proof {
        assert(shapes.take(shapes.len() as int) =~= shapes);
    }
    r
}

/// Parses `src` as a Rust source file and yields one item per top-level
/// function definition, in source order: the function's exact source
/// slice and the documentation lines attached to it. Succeeds exactly
/// where syn accepts the text and every function's span kept its source
/// slice.
pub fn extract(src: &str) -> (r: Result<Vec<FunctionItem>, ExtractError>)
    ensures
        (r is Ok) == (parse_ok(src@) && spans_kept(parsed_items(src@))),
        r matches Ok(v) ==> v@.map_values(|f: FunctionItem| f@) == functions_of(
            parsed_items(src@),
        ),
        !parse_ok(src@) ==> (r matches Err(e) && e is Parse),
        parse_ok(src@) && !spans_kept(parsed_items(src@)) ==> (r matches Err(e)
            && e is NoSourceText),
{
    let items = match parse_items(src) {
        Ok(items) => items,
        Err(m) => {
            return Err(ExtractError::Parse { message: m });
        },
    };
    let ghost models = parsed_items(src@);
    let mut out: Vec<FunctionItem> = Vec::new();
    let mut idx: usize = 0;
    proof {
        assert(models.take(0) =~= Seq::<Option<FnShape>>::empty());
    }
    while idx < items.len()
        invariant
            items@.map_values(|it: syn::Item| item_fn_shape(it)) == models,
            models == parsed_items(src@),
            parse_ok(src@),
            idx <= items@.len(),
            spans_kept(models.take(idx as int)),
            out@.map_values(|f: FunctionItem| f@) == functions_of(models.take(idx as int)),
        decreases items@.len() - idx,
    {
        let ghost out0 = out@.map_values(|f: FunctionItem| f@);
        proof {
            assert(models[idx as int] == item_fn_shape(items@[idx as int]));
        }
        match item_fn_parts(&items[idx]) {
            None => {},
            Some(parts) => {
                let (text_opt, attrs) = parts;
                match text_opt {
                    None => {
                        proof {
                            assert(models[idx as int] matches Some(fs) && fs.text is None);
                        }
                        return Err(ExtractError::NoSourceText);
                    },
                    Some(text) => {
                        let docs = collect_docs(&attrs);
                        let item = FunctionItem { text, docs };
                        out.push(item);
                        proof {
                            assert(out@.map_values(|f: FunctionItem| f@) =~= out0.push(item@));
                        }
                    },
                }
            },
        }
        proof {
            assert(models.take(idx + 1) =~= models.take(idx as int).push(models[idx as int]));
            lemma_functions_of_snoc(models.take(idx as int), models[idx as int]);
            assert forall|j: int| 0 <= j < idx + 1 implies (match #[trigger] models.take(idx + 1)[j] {
                Some(fs) => fs.text is Some,
                None => true,
            }) by {
                assert(models.take(idx + 1)[j] == models[j]);
            }
        }
        idx = idx + 1;
    }
    proof {
        assert(models.take(models.len() as int) =~= models);
    }
    Ok(out)
}

} // verus!
