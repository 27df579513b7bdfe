use vstd::prelude::*;

use crate::codegen::{
    closure_wrapper, report_error, guard, macro_wrapper, output, spec_closure_wrapper,
    spec_report_error, spec_guard, spec_macro_wrapper, spec_output, spec_spec_init, spec_init,
};
use crate::merge::{merge_items, spec_merge};
use crate::parse::{parse_input, spec_parse_input};
use crate::token::{extend, models, Token, TokenModel};
use crate::types::{output_views, OutputView};

verus! {

/// The code for the steps `outs`, one after the other.
pub open spec fn spec_outputs(outs: Seq<OutputView>) -> Seq<TokenModel> {
    outs.map_values(|o: OutputView| spec_output(o)).flatten()
}

/// The body that the macro generates for the input `input`: the writer's
/// binding, the style's creation and the code for each step; or the first
/// error found, reported with `compile_error!`.
pub open spec fn spec_body(input: Seq<Token>) -> Seq<TokenModel> {
    match spec_parse_input(input) {
        Err(e) => spec_report_error(e),
        Ok(mi) => match spec_merge(mi.span, mi.parts, mi.rest) {
            Err(e) => spec_report_error(e),
            Ok(outs) => spec_guard(models(mi.writer)) + spec_spec_init() + spec_outputs(outs),
        },
    }
}

/// All that the macro generates for the input `input`.
pub open spec fn spec_colored_generate(input: Seq<Token>) -> Seq<TokenModel> {
    spec_macro_wrapper(spec_closure_wrapper(spec_body(input)))
}

fn body(input: Vec<Token>) -> (res: Vec<Token>)
    ensures
        models(res@) == spec_body(input@),
{
    let ghost s = input@;
    let mi = match parse_input(input) {
        Ok(mi) => mi,
        Err(e) => return report_error(e),
    };
    let ghost m = mi@;
    let outs = match merge_items(mi.format, mi.rest) {
        Ok(o) => o,
        Err(e) => return report_error(e),
    };
    let ghost ov = output_views(outs@);
    let mut res = guard(mi.writer);
    extend(&mut res, spec_init());
    let ghost head = models(res@);
    let mut rest = outs;
    let n = rest.len();
    let mut i: usize = 0;
    assert(ov.subrange(0, n as int) == ov);
    assert(head + spec_outputs(ov.subrange(0, 0)) == head) by {
        assert(ov.subrange(0, 0).map_values(|o: OutputView| spec_output(o)) =~= Seq::<Seq<TokenModel>>::empty());
        assert(head + Seq::<TokenModel>::empty() =~= head);
    }
    while i < n
        invariant
            n == ov.len(),
            i <= n,
            output_views(rest@) == ov.subrange(i as int, n as int),
            models(res@) == head + spec_outputs(ov.subrange(0, i as int)),
        decreases n - i,
    {
        let ghost before = output_views(rest@);
        assert(before.len() == n - i);
        assert(before[0] == rest@[0]@);
        let item = rest.remove(0);
        assert(output_views(rest@) =~= before.subrange(1, before.len() as int));
        assert(output_views(rest@) == ov.subrange(i + 1, n as int));
        let code = match output(item) {
            Ok(c) => c,
            Err(e) => return report_error(e),
        };
        let ghost pre = models(res@);
        extend(&mut res, code);
        proof {
            let a = ov.subrange(0, i as int);
            let b = ov.subrange(0, i + 1);
            let f = |o: OutputView| spec_output(o);
            assert(b.map_values(f) =~= a.map_values(f).push(spec_output(ov[i as int])));
            a.map_values(f).lemma_flatten_push(spec_output(ov[i as int]));
            assert(models(res@) =~= head + spec_outputs(b));
        }
        i = i + 1;
    }
    assert(ov.subrange(0, n as int) == ov);
    res
}

/// Expands `colored!(writer, "format", args..)`: the code that writes the
/// arguments to the writer with the styles that the commands among them set,
/// or a `compile_error!` at the place of the first mistake, wrapped in a macro
/// `colored_impl!()` that expands to it.
pub fn colored_generate(input: Vec<Token>) -> (res: Vec<Token>)
    ensures
        models(res@) == spec_colored_generate(input@),
{
    let b = body(input);
    macro_wrapper(closure_wrapper(b))
}

} // verus!
