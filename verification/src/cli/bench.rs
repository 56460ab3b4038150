//! Benchmarks: what to measure, and how the report around the numbers reads.

use vstd::prelude::*;

use crate::capture::replay::{extension, law_an_ending_stands_behind_the_last_dot};
use crate::config::{sorted_texts, texts_view};
use crate::decimal::{decimal, decimal_of};
use crate::error::{DetectError, ErrorView};
use crate::text::{
    chars_of, is_sorted, last_index_of, owned, spells, strs_view,
};

verus! {

broadcast use vstd::string::group_string_axioms;

/// What a benchmark measures.
#[derive(Debug, Clone, PartialEq, Eq)]
pub enum BenchPlan {
    /// One model.
    Model { path: String },
    /// Every model there is.
    AllModels,
    /// Reading from a source.
    Source { spec: String },
}

/// Work out what a benchmark was asked to measure. A single model wins over all
/// of them, and models win over a source.
pub fn plan_bench(sweep_threads: bool, all: bool, model: Option<&str>, source: Option<&str>) -> (r: Result<
    BenchPlan,
    DetectError,
>)
    ensures
        match r {
            Ok(plan) => !sweep_threads && match plan {
                BenchPlan::Model { path } => model matches Some(m) && path@ == m@,
                BenchPlan::AllModels => model is None && all,
                BenchPlan::Source { spec } => model is None && !all && (source matches Some(s) && spec@ == s@),
            },
            Err(e) => if sweep_threads {
                e@ == ErrorView::Config(
                    "--sweep-threads arrives with the threading skeleton at build step 4"@,
                )
            } else {
                model is None && !all && source is None && e@ == ErrorView::Config(
                    "bench needs --source, --model <path> or --all"@,
                )
            },
        },
{
    if sweep_threads {
        return Err(
            DetectError::Config(owned("--sweep-threads arrives with the threading skeleton at build step 4")),
        );
    }
    if let Some(m) = model {
        return Ok(BenchPlan::Model { path: owned(m) });
    }
    if all {
        return Ok(BenchPlan::AllModels);
    }
    match source {
        Some(s) => Ok(BenchPlan::Source { spec: owned(s) }),
        None => Err(DetectError::Config(owned("bench needs --source, --model <path> or --all"))),
    }
}

/// Whether a file of that name is taken for a model.
pub open spec fn is_model(name: Seq<char>) -> bool {
    extension(name) == Some("onnx"@)
}

fn names_model(name: &str) -> (r: bool)
    ensures
        r == is_model(name@),
{
    let chars = chars_of(name);
    let n: usize = chars.len();
    match last_index_of(chars.as_slice(), '.') {
        Some(dot) => {
            if dot == 0 {
                return false;
            }
            let tail = vstd::slice::slice_subrange(chars.as_slice(), dot + 1, n);
            assert(tail@ =~= name@.skip(dot + 1));
            spells(tail, "onnx")
        },
        None => false,
    }
}

/// The model names in a list, in the order they stand in.
pub open spec fn models_of(names: Seq<Seq<char>>) -> Seq<Seq<char>>
    decreases names.len(),
{
    if names.len() == 0 {
        Seq::empty()
    } else {
        let before = models_of(names.drop_last());
        if is_model(names.last()) {
            before.push(names.last())
        } else {
            before
        }
    }
}

/// Pick the models out of what a directory holds, sorted by name. A directory
/// without any is an error.
pub fn list_models(names: &Vec<String>) -> (r: Result<Vec<String>, DetectError>)
    ensures
        ({
            let found = models_of(texts_view(names@));
            match r {
                Ok(files) => found.len() > 0 && is_sorted(found, texts_view(files@)),
                Err(e) => found.len() == 0 && e@ == ErrorView::Config("no .onnx files found in models/"@),
            }
        }),
{
    let n: usize = names.len();
    let ghost all = texts_view(names@);
    let ghost found = models_of(all);
    let mut keys: Vec<&str> = Vec::new();
    assert(all.take(0) =~= Seq::empty());
    assert(strs_view(keys@) =~= Seq::empty());
    for i in 0..n
        invariant
            n == names@.len(),
            all == texts_view(names@),
            strs_view(keys@) == models_of(all.take(i as int)),
    {
        let ghost before = strs_view(keys@);
        assert(all.take(i + 1).drop_last() =~= all.take(i as int));
        assert(all.take(i + 1).last() == names@[i as int]@);
        if names_model(names[i].as_str()) {
            keys.push(names[i].as_str());
            assert(strs_view(keys@) =~= before.push(names@[i as int]@));
        }
    }
    assert(all.take(n as int) =~= all);
    let m: usize = keys.len();
    assert(found.len() == m);
    if m == 0 {
        return Err(DetectError::Config(owned("no .onnx files found in models/")));
    }
    Ok(sorted_texts(&keys))
}

/// How a shape reads in a report.
pub open spec fn shape_text_spec(shape: Seq<i64>) -> Seq<char>
    decreases shape.len(),
{
    if shape.len() == 0 {
        Seq::empty()
    } else if shape.len() == 1 {
        decimal(shape.last() as nat)
    } else {
        shape_text_spec(shape.drop_last()) + "x"@ + decimal(shape.last() as nat)
    }
}

/// Write a shape without dynamic axes for a report.
pub fn shape_text(shape: &Vec<i64>) -> (r: String)
    requires
        forall|i: int| 0 <= i < shape@.len() ==> #[trigger] shape@[i] > 0,
    ensures
        r@ == shape_text_spec(shape@),
{
    let n: usize = shape.len();
    let mut r = String::new();
    assert(r@ =~= Seq::empty());
    for i in 0..n
        invariant
            n == shape@.len(),
            forall|j: int| 0 <= j < n ==> #[trigger] shape@[j] > 0,
            r@ == shape_text_spec(shape@.take(i as int)),
    {
        let d: i64 = shape[i];
        assert(shape@.take(i + 1).drop_last() =~= shape@.take(i as int));
        assert(shape@.take(i + 1).last() == d);
        let axis = decimal_of(d as u64);
        if i == 0 {
            r = axis;
        } else {
            r = r.concat("x").concat(axis.as_str());
        }
    }
    assert(shape@.take(n as int) =~= shape@);
    r
}

/// How a report on models begins.
pub fn models_heading(iters: u64, warmup_iters: u32) -> (r: String)
    ensures
        r@ == "# detect-cli bench --all\n\nSynthetic zero-tensor forward passes, "@ + decimal(iters as nat)
            + " iterations after "@ + decimal(warmup_iters as nat)
            + " warm-up. CPU execution provider. No preprocessing, no decode — a floor, not a budget.\n\n| model | MB | input | load ms | p50 ms | p95 ms | max ms |\n|---|---|---|---|---|---|---|\n"@,
{
    owned("# detect-cli bench --all\n\nSynthetic zero-tensor forward passes, ").concat(
        decimal_of(iters).as_str(),
    ).concat(" iterations after ").concat(decimal_of(warmup_iters as u64).as_str()).concat(
        " warm-up. CPU execution provider. No preprocessing, no decode — a floor, not a budget.\n\n| model | MB | input | load ms | p50 ms | p95 ms | max ms |\n|---|---|---|---|---|---|---|\n",
    )
}

/// The row for a model that would not run: finding those is what the command is
/// for, so the report goes on.
pub fn failed_row(name: &str, why: &str) -> (r: String)
    ensures
        r@ == "| "@ + name@ + " | — | — | — | — | — | **failed: "@ + why@ + "** |\n"@,
{
    owned("| ").concat(name).concat(" | — | — | — | — | — | **failed: ").concat(why).concat("** |\n")
}

/// How a report on reading from a source begins.
pub fn source_heading(name: &str, width: u32, height: u32, frames: u64) -> (r: String)
    ensures
        r@ == "# detect-cli bench\n\n- source: `"@ + name@ + "`\n- resolution: "@ + decimal(width as nat) + "x"@
            + decimal(height as nat) + "\n- frames: "@ + decimal(frames as nat) + "\n"@,
{
    owned("# detect-cli bench\n\n- source: `").concat(name).concat("`\n- resolution: ").concat(
        decimal_of(width as u64).as_str(),
    ).concat("x").concat(decimal_of(height as u64).as_str()).concat("\n- frames: ").concat(
        decimal_of(frames).as_str(),
    ).concat("\n")
}

// -- laws -------------------------------------------------------------------

/// A model is a file that has a name and, behind the last dot of it, `onnx`.
pub proof fn law_models_are_known_by_their_ending(stem: Seq<char>, ending: Seq<char>)
    requires
        !ending.contains('.'),
    ensures
        is_model(stem + seq!['.'] + ending) <==> stem.len() > 0 && ending == "onnx"@,
        !is_model(ending),
{
    law_an_ending_stands_behind_the_last_dot(stem, ending);
}

/// A list of names holds the models among them, in order, and nothing else.
pub proof fn law_only_models_are_listed(names: Seq<Seq<char>>, name: Seq<char>)
    ensures
        models_of(Seq::empty()) == Seq::<Seq<char>>::empty(),
        is_model(name) ==> models_of(names.push(name)) == models_of(names).push(name),
        !is_model(name) ==> models_of(names.push(name)) == models_of(names),
{
    assert(names.push(name).drop_last() =~= names);
}

/// A shape is shown axis by axis, with an `x` between two of them.
pub proof fn law_a_shape_is_shown_axis_by_axis(shape: Seq<i64>, axis: i64)
    requires
        axis > 0,
    ensures
        shape_text_spec(Seq::empty()) == Seq::<char>::empty(),
        shape_text_spec(seq![axis]) == decimal(axis as nat),
        shape.len() > 0 ==> shape_text_spec(shape.push(axis)) == shape_text_spec(shape) + "x"@ + decimal(axis as nat),
{
    assert(shape.push(axis).drop_last() =~= shape);
}

} // verus!
