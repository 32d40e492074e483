//! How the outcome of the transform is gathered from its passes: the first pass over parameters
//! and layers, the second pass over each layer of each controller in order, and the menu. Every
//! error found on the way is reported together; only a declaration without any compiles.
use vstd::prelude::*;

use crate::transform_error::TransformError;

verus! {

/// The errors among `results`, in order.
pub open spec fn errors_of<L>(results: Seq<Result<L, TransformError>>) -> Seq<TransformError>
    decreases results.len(),
{
    if results.len() == 0 {
        seq![]
    } else {
        match results.last() {
            Err(error) => errors_of(results.drop_last()).push(error),
            Ok(_) => errors_of(results.drop_last()),
        }
    }
}

/// What compiled among `results`, in order.
pub open spec fn compiled_of<L>(results: Seq<Result<L, TransformError>>) -> Seq<L>
    decreases results.len(),
{
    if results.len() == 0 {
        seq![]
    } else {
        match results.last() {
            Ok(layer) => compiled_of(results.drop_last()).push(layer),
            Err(_) => compiled_of(results.drop_last()),
        }
    }
}

/// The errors of the layers of every controller, controller by controller and layer by layer.
pub open spec fn layer_errors<L>(controllers: Seq<Seq<Result<L, TransformError>>>) -> Seq<TransformError>
    decreases controllers.len(),
{
    if controllers.len() == 0 {
        seq![]
    } else {
        layer_errors(controllers.drop_last()) + errors_of(controllers.last())
    }
}

/// The results of the layers of each controller, as values.
pub open spec fn results_view<L>(controllers: Seq<Vec<Result<L, TransformError>>>) -> Seq<
    Seq<Result<L, TransformError>>,
> {
    controllers.map_values(|results: Vec<Result<L, TransformError>>| results@)
}

/// Every error of the transform, in the order it was found: those of the first pass, then those
/// of each layer, then those of the menu.
pub open spec fn gathered_errors<L>(
    first: Seq<TransformError>,
    controllers: Seq<Seq<Result<L, TransformError>>>,
    menu: Seq<TransformError>,
) -> Seq<TransformError> {
    first + layer_errors(controllers) + menu
}

proof fn lemma_errors_step<L>(results: Seq<Result<L, TransformError>>, j: int)
    requires
        0 <= j < results.len(),
    ensures
        errors_of(results.take(j + 1)) == match results[j] {
            Err(error) => errors_of(results.take(j)).push(error),
            Ok(_) => errors_of(results.take(j)),
        },
        compiled_of(results.take(j + 1)) == match results[j] {
            Ok(layer) => compiled_of(results.take(j)).push(layer),
            Err(_) => compiled_of(results.take(j)),
        },
{
    assert(results.take(j + 1).drop_last() =~= results.take(j));
    assert(results.take(j + 1).last() == results[j]);
}

/// Sorts the results of one controller's layers into what compiled and what failed, in order.
fn sort_results<L>(results: Vec<Result<L, TransformError>>, errors: &mut Vec<TransformError>) -> (compiled: Vec<L>)
    ensures
        compiled@ == compiled_of(results@),
        final(errors)@ == old(errors)@ + errors_of(results@),
{
    let ghost all = results@;
    let ghost before = errors@;
    let count = results.len();
    let mut rest = results;
    let mut compiled: Vec<L> = Vec::new();
    let mut j: usize = 0;
    assert(all.take(0) =~= Seq::<Result<L, TransformError>>::empty());
    assert(before + errors_of(all.take(0)) =~= before);
    while rest.len() > 0
        invariant
            j + rest@.len() == all.len(),
            all.len() == count,
            rest@ == all.skip(j as int),
            compiled@ == compiled_of(all.take(j as int)),
            errors@ == before + errors_of(all.take(j as int)),
        decreases rest@.len(),
    {
        let ghost front = all.take(j as int);
        proof {
            lemma_errors_step(all, j as int);
            assert(rest@[0] == all[j as int]);
        }
        let next = rest.remove(0);
        match next {
            Ok(layer) => {
                compiled.push(layer);
            },
            Err(error) => {
                errors.push(error);
                assert(errors@ =~= before + errors_of(all.take(j + 1)));
            },
        }
        assert(rest@ =~= all.skip(j + 1));
        j = j + 1;
    }
    assert(all.take(j as int) =~= all);
    compiled
}

/// The outcome of the transform from what each pass gave: `first` the errors of the first pass,
/// `controllers` the result of each layer of each controller in order, `menu` the errors of the
/// menu. Every error is reported together, in the order it was found; without any, each
/// controller gets the layers it compiled, in order.
pub fn gather_outcome<L>(
    first: Vec<TransformError>,
    controllers: Vec<Vec<Result<L, TransformError>>>,
    menu: Vec<TransformError>,
) -> (outcome: Result<Vec<Vec<L>>, Vec<TransformError>>)
    ensures
        match outcome {
            Err(errors) => errors@.len() > 0 && errors@ == gathered_errors(
                first@,
                results_view(controllers@),
                menu@,
            ),
            Ok(compiled) => gathered_errors(first@, results_view(controllers@), menu@).len() == 0
                && compiled@.len() == controllers@.len() && forall|k: int|
                0 <= k < compiled@.len() ==> #[trigger] compiled@[k]@ == compiled_of(controllers@[k]@),
        },
{
    let ghost all = results_view(controllers@);
    let ghost inputs = controllers@;
    let count = controllers.len();
    let mut errors = first;
    let mut rest = controllers;
    let mut compiled: Vec<Vec<L>> = Vec::new();
    let mut i: usize = 0;
    assert(all.take(0) =~= Seq::<Seq<Result<L, TransformError>>>::empty());
    assert(first@ + layer_errors(all.take(0)) =~= first@);
    while rest.len() > 0
        invariant
            i + rest@.len() == inputs.len(),
            inputs.len() == count,
            all == results_view(inputs),
            rest@ == inputs.skip(i as int),
            compiled@.len() == i,
            forall|k: int| 0 <= k < i ==> #[trigger] compiled@[k]@ == compiled_of(inputs[k]@),
            errors@ == first@ + layer_errors(all.take(i as int)),
        decreases rest@.len(),
    {
        proof {
            assert(rest@[0] == inputs[i as int]);
            assert(all.take(i + 1).drop_last() =~= all.take(i as int));
            assert(all.take(i + 1).last() == inputs[i as int]@);
        }
        let results = rest.remove(0);
        let layers = sort_results(results, &mut errors);
        compiled.push(layers);
        assert(errors@ =~= first@ + layer_errors(all.take(i + 1)));
        assert(rest@ =~= inputs.skip(i + 1));
        i = i + 1;
    }
    assert(all.take(i as int) =~= all);
    let mut menu = menu;
    let ghost menu_errors = menu@;
    errors.append(&mut menu);
    assert(errors@ =~= gathered_errors(first@, all, menu_errors));
    if errors.len() > 0 {
        Err(errors)
    } else {
        Ok(compiled)
    }
}

} // verus!
