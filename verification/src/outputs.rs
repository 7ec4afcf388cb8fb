//! Audio outputs: resolving selectors to ids and planning the operations
//! an enable, disable, or toggle command issues.
use vstd::prelude::*;

use crate::Error;
use crate::range::field_u32;
use crate::text::parse_unsigned_str;
use crate::text::str_eq;

verus! {

/// Whether an output is audible.
#[derive(Clone, Copy, Debug, PartialEq, Eq, Structural)]
pub enum Enabled {
    Enabled,
    Disabled,
}

impl Enabled {
    pub fn from_bool(value: bool) -> (r: Enabled)
        ensures
            r == (if value { Enabled::Enabled } else { Enabled::Disabled }),
    {
        if value {
            Enabled::Enabled
        } else {
            Enabled::Disabled
        }
    }
}

/// The word the output listing uses for an output's state.
pub open spec fn enabled_text(e: Enabled) -> Seq<char> {
    match e {
        Enabled::Enabled => "enabled"@,
        Enabled::Disabled => "disabled"@,
    }
}

impl Enabled {
    /// The state's word in the output listing.
    pub fn render(&self) -> (r: &'static str)
        ensures
            r@ == enabled_text(*self),
    {
        match self {
            Enabled::Enabled => "enabled",
            Enabled::Disabled => "disabled",
        }
    }
}

/// One audio output as the daemon lists it.
#[derive(Clone, Debug)]
pub struct Output {
    pub id: u32,
    pub name: String,
    pub enabled: Enabled,
}

/// The daemon's output list, fetched fresh for every resolution.
#[derive(Clone, Debug)]
pub struct Outputs {
    pub outputs: Vec<Output>,
}

/// The listing text: one `id=name (state)` piece per output.
pub open spec fn outputs_text(outs: Seq<Output>) -> Seq<char>
    decreases outs.len(),
{
    if outs.len() == 0 {
        Seq::<char>::empty()
    } else {
        outputs_text(outs.drop_last()) + crate::text::dec_digits(outs.last().id as nat) + "="@
            + outs.last().name@ + " ("@ + enabled_text(outs.last().enabled) + ")"@
    }
}

impl Outputs {
    /// Renders the output listing as `id=name (state)` pieces.
    pub fn render(&self) -> (r: String)
        ensures
            r@ == outputs_text(self.outputs@),
    {
        let n = self.outputs.len();
        let mut s = String::new();
        let mut i: usize = 0;
        while i < n
            invariant
                i <= n,
                n == self.outputs@.len(),
                s@ == outputs_text(self.outputs@.subrange(0, i as int)),
            decreases n - i,
        {
            let num = crate::text::u64_to_string(self.outputs[i].id as u64);
            s.append(num.as_str());
            s.append("=");
            s.append(self.outputs[i].name.as_str());
            s.append(" (");
            s.append(self.outputs[i].enabled.render());
            s.append(")");
            proof {
                assert(self.outputs@.subrange(0, i as int + 1).drop_last()
                    =~= self.outputs@.subrange(0, i as int));
                assert(self.outputs@.subrange(0, i as int + 1).last()
                    == self.outputs@[i as int]);
            }
            i += 1;
        }
        proof {
            assert(self.outputs@.subrange(0, n as int) =~= self.outputs@);
        }
        s
    }
}

/// A single protocol operation: set output `id` to `enable`.
#[derive(Clone, Copy, Debug, PartialEq, Eq, Structural)]
pub struct OutputOp {
    pub id: u32,
    pub enable: bool,
}

/// The id of the first output whose name is exactly `sel`.
pub open spec fn lookup_name(outputs: Seq<Output>, sel: Seq<char>) -> Option<u32>
    decreases outputs.len(),
{
    if outputs.len() == 0 {
        None
    } else if outputs.first().name@ == sel {
        Some(outputs.first().id)
    } else {
        lookup_name(outputs.drop_first(), sel)
    }
}

/// What an output selector denotes: a numeric selector is taken as an id
/// directly (no existence check), anything else names an output.
pub open spec fn resolve_output(outputs: Seq<Output>, sel: Seq<char>) -> Option<u32> {
    match field_u32(sel) {
        Some(v) => Some(v),
        None => lookup_name(outputs, sel),
    }
}

/// Resolves one selector against the live output list; an unparsable,
/// unknown name is `UnknownOutput`.
pub fn output_for(outputs: &Vec<Output>, name_or_id: &str) -> (r: Result<u32, Error>)
    ensures
        match r {
            Ok(id) => resolve_output(outputs@, name_or_id@) == Some(id),
            Err(e) => {
                &&& resolve_output(outputs@, name_or_id@) is None
                &&& e is UnknownOutput
            },
        },
{
    let parsed = parse_unsigned_str(name_or_id);
    match parsed {
        Some(v) => {
            if v <= 0xffff_ffffu64 {
                return Ok(v as u32);
            }
        },
        None => {},
    }
    let n = outputs.len();
    let mut i: usize = 0;
    proof {
        assert(outputs@.subrange(0, n as int) =~= outputs@);
    }
    while i < n
        invariant
            i <= n,
            n == outputs@.len(),
            field_u32(name_or_id@) is None,
            lookup_name(outputs@, name_or_id@) == lookup_name(
                outputs@.subrange(i as int, n as int),
                name_or_id@,
            ),
        decreases n - i,
    {
        proof {
            assert(outputs@.subrange(i as int, n as int).first() == outputs@[i as int]);
            assert(outputs@.subrange(i as int, n as int).drop_first() =~= outputs@.subrange(
                i as int + 1,
                n as int,
            ));
        }
        if str_eq(outputs[i].name.as_str(), name_or_id) {
            return Ok(outputs[i].id);
        }
        i += 1;
    }
    proof {
        assert(outputs@.subrange(n as int, n as int) =~= Seq::<Output>::empty());
    }
    Err(Error::UnknownOutput)
}

/// Whether the literal token `only` occurs among the arguments.
pub open spec fn has_only(args: Seq<String>) -> bool {
    exists|i: int| 0 <= i < args.len() && args[i]@ == "only"@
}

/// The arguments that are selectors: everything but the `only` tokens,
/// in order.
pub open spec fn selectors_of(args: Seq<String>) -> Seq<Seq<char>>
    decreases args.len(),
{
    if args.len() == 0 {
        Seq::<Seq<char>>::empty()
    } else if args.last()@ == "only"@ {
        selectors_of(args.drop_last())
    } else {
        selectors_of(args.drop_last()).push(args.last()@)
    }
}

/// The operations for a list of selectors, all setting `enable`; `None`
/// as soon as any selector fails to resolve.
pub open spec fn selector_ops(outputs: Seq<Output>, sels: Seq<Seq<char>>, enable: bool) -> Option<
    Seq<OutputOp>,
>
    decreases sels.len(),
{
    if sels.len() == 0 {
        Some(Seq::<OutputOp>::empty())
    } else {
        match (selector_ops(outputs, sels.drop_last(), enable), resolve_output(
            outputs,
            sels.last(),
        )) {
            (Some(ops), Some(id)) => Some(ops.push(OutputOp { id, enable })),
            _ => None,
        }
    }
}

/// The blanket pass of an `only` command: every known output is set to
/// the opposite of the target state, so that the selectors decide alone.
pub open spec fn blanket_ops(outputs: Seq<Output>, enable: bool) -> Seq<OutputOp> {
    Seq::new(outputs.len(), |i: int| OutputOp { id: outputs[i].id, enable: !enable })
}

/// The full ordered operation list of an enable or disable command:
/// the blanket pass when `only` was given, then one operation per
/// selector; `None` when some selector is unknown.
pub open spec fn enable_disable_plan(
    enable: bool,
    args: Seq<String>,
    outputs: Seq<Output>,
) -> Option<Seq<OutputOp>> {
    match selector_ops(outputs, selectors_of(args), enable) {
        Some(ops) => Some(
            (if has_only(args) {
                blanket_ops(outputs, enable)
            } else {
                Seq::<OutputOp>::empty()
            }) + ops,
        ),
        None => None,
    }
}

proof fn lemma_selector_ops_none_extends(outputs: Seq<Output>, s: Seq<Seq<char>>, t: Seq<Seq<char>>, enable: bool)
    requires
        selector_ops(outputs, s, enable) is None,
    ensures
        selector_ops(outputs, s + t, enable) is None,
    decreases t.len(),
{
    if t.len() == 0 {
        assert(s + t =~= s);
    } else {
        lemma_selector_ops_none_extends(outputs, s, t.drop_last(), enable);
        assert((s + t).drop_last() =~= s + t.drop_last());
    }
}

/// Computes the ordered operations of an enable or disable command from
/// the arguments and the live output list; the caller issues them in
/// order, blanket pass first, so explicit selectors always win.
pub fn plan_enable_disable(enable: bool, args: &Vec<String>, outputs: &Vec<Output>) -> (r: Result<
    Vec<OutputOp>,
    Error,
>)
    ensures
        match r {
            Ok(ops) => enable_disable_plan(enable, args@, outputs@) == Some(ops@),
            Err(e) => {
                &&& enable_disable_plan(enable, args@, outputs@) is None
                &&& e is UnknownOutput
            },
        },
{
    let nargs = args.len();
    let mut only = false;
    let mut sels: Vec<String> = Vec::new();
    let mut i: usize = 0;
    while i < nargs
        invariant
            i <= nargs,
            nargs == args@.len(),
            only == (exists|k: int| 0 <= k < i && args@[k]@ == "only"@),
            sels@.map_values(|s: String| s@) == selectors_of(args@.subrange(0, i as int)),
        decreases nargs - i,
    {
        proof {
            assert(args@.subrange(0, i as int + 1).drop_last() =~= args@.subrange(0, i as int));
            assert(args@.subrange(0, i as int + 1).last() == args@[i as int]);
        }
        if str_eq(args[i].as_str(), "only") {
            only = true;
        } else {
            sels.push(args[i].clone());
            proof {
                assert(sels@.map_values(|s: String| s@) =~= selectors_of(
                    args@.subrange(0, i as int + 1),
                ));
            }
        }
        i += 1;
    }
    proof {
        assert(args@.subrange(0, nargs as int) =~= args@);
    }
    let mut ops: Vec<OutputOp> = Vec::new();
    if only {
        let nouts = outputs.len();
        let mut j: usize = 0;
        while j < nouts
            invariant
                j <= nouts,
                nouts == outputs@.len(),
                ops@ =~= blanket_ops(outputs@, enable).subrange(0, j as int),
            decreases nouts - j,
        {
            ops.push(OutputOp { id: outputs[j].id, enable: !enable });
            proof {
                assert(ops@ =~= blanket_ops(outputs@, enable).subrange(0, j as int + 1));
            }
            j += 1;
        }
        proof {
            assert(ops@ =~= blanket_ops(outputs@, enable));
        }
    }
    let ghost head = ops@;
    let ghost allsels = sels@.map_values(|s: String| s@);
    let nsels = sels.len();
    let mut k: usize = 0;
    while k < nsels
        invariant
            k <= nsels,
            nsels == sels@.len(),
            allsels == sels@.map_values(|s: String| s@),
            allsels == selectors_of(args@),
            selector_ops(outputs@, allsels.subrange(0, k as int), enable) == Some(
                ops@.subrange(head.len() as int, ops@.len() as int),
            ),
            ops@.subrange(0, head.len() as int) == head,
            ops@.len() >= head.len(),
        decreases nsels - k,
    {
        proof {
            assert(allsels.subrange(0, k as int + 1).drop_last() =~= allsels.subrange(
                0,
                k as int,
            ));
            assert(allsels.subrange(0, k as int + 1).last() == allsels[k as int]);
            assert(allsels[k as int] == sels@[k as int]@);
        }
        let ghost prev_tail = ops@.subrange(head.len() as int, ops@.len() as int);
        let id = match output_for(outputs, sels[k].as_str()) {
            Ok(id) => id,
            Err(e) => {
                proof {
                    lemma_selector_ops_none_extends(
                        outputs@,
                        allsels.subrange(0, k as int + 1),
                        allsels.subrange(k as int + 1, allsels.len() as int),
                        enable,
                    );
                    assert(allsels.subrange(0, k as int + 1) + allsels.subrange(
                        k as int + 1,
                        allsels.len() as int,
                    ) =~= allsels);
                }
                return Err(e);
            },
        };
        ops.push(OutputOp { id, enable });
        proof {
            assert(ops@.subrange(head.len() as int, ops@.len() as int) =~= prev_tail.push(
                OutputOp { id, enable },
            ));
            assert(ops@.subrange(0, head.len() as int) =~= head);
        }
        k += 1;
    }
    proof {
        assert(allsels.subrange(0, nsels as int) =~= allsels);
        assert(ops@ =~= head + ops@.subrange(head.len() as int, ops@.len() as int));
    }
    Ok(ops)
}

/// The ids a toggle command flips, in argument order; `None` as soon as
/// any selector fails to resolve.
pub open spec fn toggle_ids(outputs: Seq<Output>, args: Seq<String>) -> Option<Seq<u32>>
    decreases args.len(),
{
    if args.len() == 0 {
        Some(Seq::<u32>::empty())
    } else {
        match (toggle_ids(outputs, args.drop_last()), resolve_output(outputs, args.last()@)) {
            (Some(ids), Some(id)) => Some(ids.push(id)),
            _ => None,
        }
    }
}

proof fn lemma_toggle_ids_none_extends(outputs: Seq<Output>, s: Seq<String>, t: Seq<String>)
    requires
        toggle_ids(outputs, s) is None,
    ensures
        toggle_ids(outputs, s + t) is None,
    decreases t.len(),
{
    if t.len() == 0 {
        assert(s + t =~= s);
    } else {
        lemma_toggle_ids_none_extends(outputs, s, t.drop_last());
        assert((s + t).drop_last() =~= s + t.drop_last());
    }
}

/// Resolves every argument of a toggle command to an output id; an empty
/// argument list is rejected, and toggling ignores the `only` semantics.
pub fn plan_toggle(args: &Vec<String>, outputs: &Vec<Output>) -> (r: Result<Vec<u32>, Error>)
    ensures
        match r {
            Ok(ids) => {
                &&& args@.len() > 0
                &&& toggle_ids(outputs@, args@) == Some(ids@)
            },
            Err(e) => {
                &&& (args@.len() == 0 && e is NoOutputsGiven) || (args@.len() > 0 && toggle_ids(
                    outputs@,
                    args@,
                ) is None && e is UnknownOutput)
            },
        },
{
    let nargs = args.len();
    if nargs == 0 {
        return Err(Error::NoOutputsGiven);
    }
    let mut ids: Vec<u32> = Vec::new();
    let mut k: usize = 0;
    while k < nargs
        invariant
            k <= nargs,
            nargs == args@.len(),
            toggle_ids(outputs@, args@.subrange(0, k as int)) == Some(ids@),
        decreases nargs - k,
    {
        proof {
            assert(args@.subrange(0, k as int + 1).drop_last() =~= args@.subrange(0, k as int));
            assert(args@.subrange(0, k as int + 1).last() == args@[k as int]);
        }
        match output_for(outputs, args[k].as_str()) {
            Ok(id) => {
                ids.push(id);
            },
            Err(e) => {
                proof {
                    lemma_toggle_ids_none_extends(
                        outputs@,
                        args@.subrange(0, k as int + 1),
                        args@.subrange(k as int + 1, args@.len() as int),
                    );
                    assert(args@.subrange(0, k as int + 1) + args@.subrange(
                        k as int + 1,
                        args@.len() as int,
                    ) =~= args@);
                }
                return Err(e);
            },
        }
        k += 1;
    }
    proof {
        assert(args@.subrange(0, nargs as int) =~= args@);
    }
    Ok(ids)
}

/// Whether output `id` ends up enabled after `ops` run in order, starting
/// from `init`: the last operation on `id` decides.
pub open spec fn final_enabled(init: bool, id: u32, ops: Seq<OutputOp>) -> bool
    decreases ops.len(),
{
    if ops.len() == 0 {
        init
    } else if ops.last().id == id {
        ops.last().enable
    } else {
        final_enabled(init, id, ops.drop_last())
    }
}

/// Replays an operation list over an output list, yielding the output
/// states the daemon would end up with; a model used to state and test
/// what a plan achieves.
pub fn apply_output_ops(outputs: &Vec<Output>, ops: &Vec<OutputOp>) -> (r: Vec<Output>)
    ensures
        r@.len() == outputs@.len(),
        forall|i: int|
            0 <= i < outputs@.len() ==> {
                &&& (#[trigger] r@[i]).id == outputs@[i].id
                &&& r@[i].name@ == outputs@[i].name@
                &&& (r@[i].enabled is Enabled) == final_enabled(
                    outputs@[i].enabled is Enabled,
                    outputs@[i].id,
                    ops@,
                )
            },
{
    let n = outputs.len();
    let nops = ops.len();
    let mut r: Vec<Output> = Vec::new();
    let mut i: usize = 0;
    while i < n
        invariant
            i <= n,
            n == outputs@.len(),
            nops == ops@.len(),
            r@.len() == i,
            forall|k: int|
                0 <= k < i ==> {
                    &&& (#[trigger] r@[k]).id == outputs@[k].id
                    &&& r@[k].name@ == outputs@[k].name@
                    &&& (r@[k].enabled is Enabled) == final_enabled(
                        outputs@[k].enabled is Enabled,
                        outputs@[k].id,
                        ops@,
                    )
                },
        decreases n - i,
    {
        let id = outputs[i].id;
        let mut en = matches!(outputs[i].enabled, Enabled::Enabled);
        let mut j: usize = 0;
        while j < nops
            invariant
                j <= nops,
                nops == ops@.len(),
                i < n,
                n == outputs@.len(),
                id == outputs@[i as int].id,
                en == final_enabled(
                    outputs@[i as int].enabled is Enabled,
                    id,
                    ops@.subrange(0, j as int),
                ),
            decreases nops - j,
        {
            proof {
                assert(ops@.subrange(0, j as int + 1).drop_last() =~= ops@.subrange(0, j as int));
                assert(ops@.subrange(0, j as int + 1).last() == ops@[j as int]);
            }
            if ops[j].id == id {
                en = ops[j].enable;
            }
            j += 1;
        }
        proof {
            assert(ops@.subrange(0, nops as int) =~= ops@);
        }
        r.push(Output { id, name: outputs[i].name.clone(), enabled: Enabled::from_bool(en) });
        i += 1;
    }
    r
}

proof fn lemma_final_enabled_append(init: bool, id: u32, a: Seq<OutputOp>, b: Seq<OutputOp>)
    ensures
        final_enabled(init, id, a + b) == final_enabled(final_enabled(init, id, a), id, b),
    decreases b.len(),
{
    if b.len() == 0 {
        assert(a + b =~= a);
    } else {
        lemma_final_enabled_append(init, id, a, b.drop_last());
        assert((a + b).drop_last() =~= a + b.drop_last());
        assert((a + b).last() == b.last());
    }
}

proof fn lemma_final_enabled_uniform(init: bool, id: u32, ops: Seq<OutputOp>, v: bool)
    requires
        forall|k: int| 0 <= k < ops.len() ==> (#[trigger] ops[k]).enable == v,
    ensures
        final_enabled(init, id, ops) == if exists|k: int| 0 <= k < ops.len() && (#[trigger] ops[k]).id
            == id {
            v
        } else {
            init
        },
    decreases ops.len(),
{
    if ops.len() > 0 {
        lemma_final_enabled_uniform(init, id, ops.drop_last(), v);
        if ops.last().id == id {
            assert(ops[ops.len() - 1].id == id);
        } else {
            assert forall|k: int|
                0 <= k < ops.len() && (#[trigger] ops[k]).id == id implies 0 <= k < ops.len() - 1
                && ops.drop_last()[k].id == id by {
                assert(ops[k] == ops.drop_last()[k]);
            }
        }
    }
}

proof fn lemma_selector_ops_uniform(outputs: Seq<Output>, sels: Seq<Seq<char>>, enable: bool)
    ensures
        match selector_ops(outputs, sels, enable) {
            Some(ops) => forall|k: int|
                0 <= k < ops.len() ==> (#[trigger] ops[k]).enable == enable,
            None => true,
        },
    decreases sels.len(),
{
    if sels.len() > 0 {
        lemma_selector_ops_uniform(outputs, sels.drop_last(), enable);
    }
}

/// The law behind `only`: after the plan of an enable or disable command
/// that carries the `only` token runs, an output is in the target state
/// exactly when some explicit selector resolved to its id, and in the
/// opposite state otherwise — the blanket pass never overrides a selector,
/// whatever the output's initial state `init` was.
pub proof fn lemma_only_selectors_win(
    enable: bool,
    args: Seq<String>,
    outputs: Seq<Output>,
    ops: Seq<OutputOp>,
    i: int,
    init: bool,
)
    requires
        enable_disable_plan(enable, args, outputs) == Some(ops),
        has_only(args),
        0 <= i < outputs.len(),
    ensures
        final_enabled(init, outputs[i].id, ops) == if exists|k: int|
            outputs.len() <= k < ops.len() && (#[trigger] ops[k]).id == outputs[i].id {
            enable
        } else {
            !enable
        },
{
    let id = outputs[i].id;
    let blanket = blanket_ops(outputs, enable);
    let sel = selector_ops(outputs, selectors_of(args), enable)->Some_0;
    assert(ops == blanket + sel);
    lemma_final_enabled_append(init, id, blanket, sel);
    assert(blanket[i].id == id);
    lemma_final_enabled_uniform(init, id, blanket, !enable);
    assert(final_enabled(init, id, blanket) == !enable);
    lemma_selector_ops_uniform(outputs, selectors_of(args), enable);
    lemma_final_enabled_uniform(!enable, id, sel, enable);
    assert(ops.len() == blanket.len() + sel.len());
    if exists|k: int| 0 <= k < sel.len() && (#[trigger] sel[k]).id == id {
        let k = choose|k: int| 0 <= k < sel.len() && (#[trigger] sel[k]).id == id;
        assert(ops[blanket.len() + k].id == id);
        assert(final_enabled(init, id, ops) == enable);
    } else {
        assert forall|k: int|
            outputs.len() <= k < ops.len() implies (#[trigger] ops[k]).id != id by {
            assert(ops[k] == sel[k - blanket.len()]);
        }
        assert(final_enabled(init, id, ops) == !enable);
    }
}

} // verus!
