//! The prompt builder: wraps an extracted function in one of two
//! templates — one for functions without documentation, one for
//! functions that already carry documentation lines — escaping the
//! embedded source text so it cannot break out of its code fence.

use vstd::prelude::*;

verus! {

use vstd::string::StringExecFns;
use crate::text::escape_backticks;
use crate::text::escape_backticks_spec;
use crate::text::escape_newlines;
use crate::text::esc_newlines_rec;
use crate::text::join_lines;
use crate::text::join_lines_spec;
use crate::text::no_triple_backtick;
use crate::text::lemma_escape_backticks_no_triple;
use crate::text::lemma_escape_newlines_keeps_no_triple;
use crate::extract::extract;
use crate::extract::functions_of;
use crate::extract::parse_ok;
use crate::extract::parsed_items;
use crate::extract::spans_kept;
use crate::extract::ExtractError;
use crate::extract::FunctionItem;
use crate::extract::FunctionItemView;

/// The prompt for a function, chosen by whether it already carries
/// documentation lines: the bare template embeds the escaped source
/// text in a code fence; the rewrite template also escapes newlines in
/// the embedded source and appends the existing documentation lines,
/// joined with newlines.
pub open spec fn prompt_for(f: FunctionItemView) -> Seq<char> {
    if f.docs.len() > 0 {
        "Rewrite the documentation for this Rust function. Its source, with newlines escaped, is:\n\n```rust\n"@
            + esc_newlines_rec(escape_backticks_spec(f.text))
            + "\n```\n\nIts current documentation lines are:\n"@ + join_lines_spec(f.docs)
            + "\n\nReply with only the improved documentation comment, as `///` lines.\n"@
    } else {
        "Write a documentation comment for this Rust function:\n\n```rust\n"@
            + escape_backticks_spec(f.text)
            + "\n```\n\nReply with only the documentation comment, as `///` lines.\n"@
    }
}

/// Builds the prompt for one extracted function. The template with the
/// existing documentation lines is used exactly where the function has
/// some.
pub fn build_prompt(item: &FunctionItem) -> (r: String)
    ensures
        r@ == prompt_for(item@),
{
    if item.docs.len() > 0 {
        let mut p = String::from_str(
            "Rewrite the documentation for this Rust function. Its source, with newlines escaped, is:\n\n```rust\n",
        );
        let e1 = escape_backticks(item.text.as_str());
        let e2 = escape_newlines(e1.as_str());
        p.append(e2.as_str());
        p.append("\n```\n\nIts current documentation lines are:\n");
        let joined = join_lines(&item.docs);
        p.append(joined.as_str());
        p.append("\n\nReply with only the improved documentation comment, as `///` lines.\n");
        proof {
            assert(p@ =~= prompt_for(item@));
        }
        p
    } else {
        let mut p = String::from_str(
            "Write a documentation comment for this Rust function:\n\n```rust\n",
        );
        let e1 = escape_backticks(item.text.as_str());
        p.append(e1.as_str());
        p.append("\n```\n\nReply with only the documentation comment, as `///` lines.\n");
        proof {
            assert(p@ =~= prompt_for(item@));
        }
        p
    }
}

/// Law: whichever template is chosen, the source text stands in the
/// prompt in its escaped form, and that escaped form holds no three
/// consecutive backticks, so it cannot terminate the code fence around
/// it.
pub proof fn lemma_prompt_embeds_escaped_source(f: FunctionItemView)
    ensures
        no_triple_backtick(escape_backticks_spec(f.text)),
        no_triple_backtick(esc_newlines_rec(escape_backticks_spec(f.text))),
{
    lemma_escape_backticks_no_triple(f.text);
    lemma_escape_newlines_keeps_no_triple(escape_backticks_spec(f.text));
}

/// `pre` is a prefix of `s`.
pub open spec fn is_prefix_of(pre: Seq<char>, s: Seq<char>) -> bool {
    pre.len() <= s.len() && s.take(pre.len() as int) == pre
}

/// Law: the rewrite template is chosen exactly for a function that
/// already carries documentation lines, and the two templates tell
/// themselves apart by their opening word.
pub proof fn lemma_template_selection(f: FunctionItemView)
    ensures
        f.docs.len() > 0 ==> is_prefix_of("Rewrite"@, prompt_for(f)),
        f.docs.len() == 0 ==> is_prefix_of("Write"@, prompt_for(f)),
        !(is_prefix_of("Rewrite"@, prompt_for(f)) && is_prefix_of("Write"@, prompt_for(f))),
{
    reveal_strlit("Rewrite");
    reveal_strlit("Write");
    reveal_strlit(
        "Rewrite the documentation for this Rust function. Its source, with newlines escaped, is:\n\n```rust\n",
    );
    reveal_strlit("Write a documentation comment for this Rust function:\n\n```rust\n");
    let r = prompt_for(f);
    if f.docs.len() > 0 {
        assert(r.take(7) =~= "Rewrite"@);
        assert(r[0] == 'R');
    } else {
        assert(r.take(5) =~= "Write"@);
        assert(r[0] == 'W');
    }
    if is_prefix_of("Rewrite"@, r) && is_prefix_of("Write"@, r) {
        assert(r.take(7)[0] == r[0]);
        assert(r.take(5)[0] == r[0]);
        assert('R' == 'W');
    }
}

/// The prompts for a sequence of extracted functions, in order.
pub open spec fn prompts_of_functions(fs: Seq<FunctionItemView>) -> Seq<Seq<char>> {
    fs.map_values(|f: FunctionItemView| prompt_for(f))
}

/// The extractor accepts `s` and keeps every function's source slice.
pub open spec fn source_ok(s: Seq<char>) -> bool {
    parse_ok(s) && spans_kept(parsed_items(s))
}

/// The prompts for one source text: one prompt per top-level function,
/// in source order.
pub open spec fn prompts_of_source(s: Seq<char>) -> Seq<Seq<char>> {
    prompts_of_functions(functions_of(parsed_items(s)))
}

/// Extracts the functions of one source text and builds one prompt per
/// function, in source order.
pub fn prompts_for_source(src: &str) -> (r: Result<Vec<String>, ExtractError>)
    ensures
        (r is Ok) == source_ok(src@),
        r matches Ok(v) ==> v.deep_view() == prompts_of_source(src@),
        !parse_ok(src@) ==> (r matches Err(e) && e is Parse),
        parse_ok(src@) && !spans_kept(parsed_items(src@)) ==> (r matches Err(e)
            && e is NoSourceText),
{
    let items = match extract(src) {
        Ok(items) => items,
        Err(e) => {
            return Err(e);
        },
    };
    let ghost fs = functions_of(parsed_items(src@));
    let mut out: Vec<String> = Vec::new();
    let mut i: usize = 0;
    proof {
        assert(out.deep_view() =~= prompts_of_functions(fs).take(0));
    }
    while i < items.len()
        invariant
            items@.map_values(|f: FunctionItem| f@) == fs,
            i <= items@.len(),
            out@.len() == i,
            out.deep_view() == prompts_of_functions(fs).take(i as int),
        decreases items@.len() - i,
    {
        let ghost out0 = out.deep_view();
        let p = build_prompt(&items[i]);
        out.push(p);
        proof {
            assert(fs[i as int] == items@[i as int]@);
            assert(prompts_of_functions(fs)[i as int] == prompt_for(fs[i as int]));
            assert(out@[i as int] == p);
            assert(out.deep_view()[i as int] == p@);
            assert forall|j: int| 0 <= j < i implies out.deep_view()[j] == out0[j] by {
                assert(out.deep_view()[j] == out@[j]@);
            }
            assert(out.deep_view() =~= prompts_of_functions(fs).take(i + 1));
        }
        i = i + 1;
    }
    proof {
        assert(prompts_of_functions(fs).take(items@.len() as int) =~= prompts_of_functions(fs));
    }
    Ok(out)
}

/// Every source text in `ss` extracts cleanly.
pub open spec fn all_sources_ok(ss: Seq<Seq<char>>) -> bool {
    forall|i: int| 0 <= i < ss.len() ==> source_ok(#[trigger] ss[i])
}

/// The prompts for a sequence of source texts, file by file, in order.
pub open spec fn prompts_of_sources(ss: Seq<Seq<char>>) -> Seq<Seq<char>>
    decreases ss.len(),
{
    if ss.len() == 0 {
        Seq::empty()
    } else {
        prompts_of_source(ss[0]) + prompts_of_sources(ss.skip(1))
    }
}

proof fn lemma_prompts_of_sources_snoc(ss: Seq<Seq<char>>, s: Seq<char>)
    ensures
        prompts_of_sources(ss.push(s)) == prompts_of_sources(ss) + prompts_of_source(s),
    decreases ss.len(),
{
    reveal_with_fuel(prompts_of_sources, 3);
    if ss.len() == 0 {
        assert(ss.push(s)[0] == s);
        assert(ss.push(s).skip(1) =~= Seq::<Seq<char>>::empty());
        assert(prompts_of_sources(ss.push(s)) =~= prompts_of_sources(ss) + prompts_of_source(s));
    } else {
        assert(ss.push(s)[0] == ss[0]);
        assert(ss.push(s).skip(1) =~= ss.skip(1).push(s));
        lemma_prompts_of_sources_snoc(ss.skip(1), s);
        assert(prompts_of_sources(ss.push(s)) =~= prompts_of_sources(ss) + prompts_of_source(s));
    }
}

/// Builds every prompt of a run: for each source text, in order, one
/// prompt per extracted function. Fails on the first source text the
/// extractor rejects, with that text's error.
pub fn suggest_prompts(texts: &Vec<String>) -> (r: Result<Vec<String>, ExtractError>)
    ensures
        (r is Ok) == all_sources_ok(texts.deep_view()),
        r matches Ok(v) ==> v.deep_view() == prompts_of_sources(texts.deep_view()),
{
    let ghost ts = texts.deep_view();
    let mut out: Vec<String> = Vec::new();
    let mut i: usize = 0;
    proof {
        assert(ts.take(0) =~= Seq::<Seq<char>>::empty());
    }
    while i < texts.len()
        invariant
            ts == texts.deep_view(),
            i <= texts@.len(),
            forall|j: int| 0 <= j < i ==> source_ok(#[trigger] ts[j]),
            out.deep_view() == prompts_of_sources(ts.take(i as int)),
        decreases texts@.len() - i,
    {
        let ghost out0 = out.deep_view();
        let chunk = match prompts_for_source(texts[i].as_str()) {
            Ok(chunk) => chunk,
            Err(e) => {
                proof {
                    assert(!source_ok(ts[i as int]));
                }
                return Err(e);
            },
        };
        let mut k: usize = 0;
        while k < chunk.len()
            invariant
                k <= chunk@.len(),
                chunk.deep_view() == prompts_of_source(ts[i as int]),
                i < ts.len(),
                out@.len() == out0.len() + k,
                out.deep_view() == out0 + chunk.deep_view().take(k as int),
            decreases chunk@.len() - k,
        {
            let ghost out1 = out.deep_view();
            out.push(chunk[k].clone());
            proof {
                assert(chunk.deep_view()[k as int] == chunk@[k as int]@);
                assert(out@[out@.len() - 1]@ == chunk@[k as int]@);
                assert(out.deep_view()[out@.len() - 1] == chunk.deep_view()[k as int]);
                assert forall|j: int| 0 <= j < out@.len() - 1 implies out.deep_view()[j] == out1[j]
                by {
                    assert(out.deep_view()[j] == out@[j]@);
                }
                let target = out0 + chunk.deep_view().take(k + 1);
                assert(out.deep_view().len() == target.len());
                assert forall|j: int| 0 <= j < out@.len() implies out.deep_view()[j] == target[j]
                by {
                    if j < out@.len() - 1 {
                        assert(out.deep_view()[j] == out1[j]);
                        assert(out1[j] == (out0 + chunk.deep_view().take(k as int))[j]);
                        if j < out0.len() {
                            assert(target[j] == out0[j]);
                        } else {
                            assert(out1[j] == chunk.deep_view().take(k as int)[j - out0.len()]);
                            assert(target[j] == chunk.deep_view().take(k + 1)[j - out0.len()]);
                        }
                    } else {
                        assert(out.deep_view()[j] == chunk.deep_view()[k as int]);
                        assert(target[j] == chunk.deep_view().take(k + 1)[k as int]);
                    }
                }
                assert(out.deep_view() =~= target);
            }
            k = k + 1;
        }
        proof {
            assert(chunk.deep_view().take(chunk@.len() as int) =~= chunk.deep_view());
            assert(ts.take(i + 1) =~= ts.take(i as int).push(ts[i as int]));
            lemma_prompts_of_sources_snoc(ts.take(i as int), ts[i as int]);
        }
        i = i + 1;
    }
    proof {
        assert(ts.take(ts.len() as int) =~= ts);
    }
    Ok(out)
}

} // verus!
