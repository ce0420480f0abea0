//! Split experts become fused ones, the quantization settings with them; and
//! what a checkpoint weighs.

use vstd::prelude::*;
use vstd::string::*;

use crate::config::Double;
use crate::config::Gemma4Config;
use crate::install_plan::has_ple;
use crate::install_plan::takes_ple;
use crate::table::cut;
use crate::table::distinct;
use crate::table::law_cut_keeps_distinct;
use crate::table::law_lookup_cut;
use crate::table::law_lookup_put;
use crate::table::lookup;
use crate::table::put;
use crate::table::Table;
use crate::text::decimal;
use crate::text::is_white;
use crate::text::law_decimal_is_read_back;
use crate::text::law_trimming;
use crate::text::lemma_decimal_digits;
use crate::text::parse_unsigned;
use crate::text::parse_unsigned_chars;
use crate::text::trim_chars;
use crate::text::trimmed;
use crate::weight_laws::lemma_layer_keys_differ;
use crate::weights::layer_key;
use crate::weights::layer_name;
use crate::weights::DType;
use crate::weights::TensorInfo;

verus! {

/// A concatenation along the second axis that the tensor runtime performs:
/// `into` becomes `into` followed by `with`.
#[derive(Debug, Clone, Copy, PartialEq, Eq, Structural)]
pub struct ArrayConcat {
    pub into: u64,
    pub with: u64,
}

/// Tensors, and the concatenations that they wait for.
#[verifier::ext_equal]
pub ghost struct Fusion {
    pub s: Seq<(Seq<char>, TensorInfo)>,
    pub ops: Seq<ArrayConcat>,
}

/// Two tensors joined into the array of the first.
pub open spec fn joined(a: TensorInfo, b: TensorInfo) -> TensorInfo {
    TensorInfo {
        nbytes: if a.nbytes + b.nbytes > u64::MAX {
            u64::MAX
        } else {
            (a.nbytes + b.nbytes) as u64
        },
        ..a
    }
}

impl Fusion {
    /// `gate` and `up` become `fused` where both are there; one alone goes.
    pub open spec fn fuse(self, gate: Seq<char>, up: Seq<char>, fused: Seq<char>) -> Fusion {
        let rest = cut(cut(self.s, gate), up);
        match (lookup(self.s, gate), lookup(cut(self.s, gate), up)) {
            (Some(g), Some(u)) => Fusion {
                s: put(rest, fused, joined(g, u)),
                ops: self.ops.push(ArrayConcat { into: g.array, with: u.array }),
            },
            _ => Fusion { s: rest, ops: self.ops },
        }
    }

    /// `from` becomes `to`, unless there is one.
    pub open spec fn rename(self, from: Seq<char>, to: Seq<char>) -> Fusion {
        match (lookup(self.s, to), lookup(self.s, from)) {
            (None, Some(t)) => Fusion { s: put(cut(self.s, from), to, t), ops: self.ops },
            _ => self,
        }
    }

    /// The experts of layer `i` fused.
    pub open spec fn layer(self, i: int) -> Fusion {
        self.fuse(
            layer_key(i, ".experts.switch_glu.gate_proj.weight"@),
            layer_key(i, ".experts.switch_glu.up_proj.weight"@),
            layer_key(i, ".experts.gate_up_proj.weight"@),
        ).fuse(
            layer_key(i, ".experts.switch_glu.gate_proj.scales"@),
            layer_key(i, ".experts.switch_glu.up_proj.scales"@),
            layer_key(i, ".experts.gate_up_proj.scales"@),
        ).fuse(
            layer_key(i, ".experts.switch_glu.gate_proj.biases"@),
            layer_key(i, ".experts.switch_glu.up_proj.biases"@),
            layer_key(i, ".experts.gate_up_proj.biases"@),
        ).rename(
            layer_key(i, ".experts.switch_glu.down_proj.weight"@),
            layer_key(i, ".experts.down_proj.weight"@),
        ).rename(
            layer_key(i, ".experts.switch_glu.down_proj.scales"@),
            layer_key(i, ".experts.down_proj.scales"@),
        ).rename(
            layer_key(i, ".experts.switch_glu.down_proj.biases"@),
            layer_key(i, ".experts.down_proj.biases"@),
        )
    }

    /// The experts of the first `n` layers fused.
    pub open spec fn layers(self, n: int) -> Fusion
        decreases n,
    {
        if n <= 0 {
            self
        } else {
            self.layers(n - 1).layer(n - 1)
        }
    }
}

/// Tensors and the concatenations that they wait for.
pub open spec fn fusion(params: Table<TensorInfo>, ops: Vec<ArrayConcat>) -> Fusion {
    Fusion { s: params.view(), ops: ops@ }
}

fn fuse_pair(
    params: &mut Table<TensorInfo>,
    ops: &mut Vec<ArrayConcat>,
    gate: String,
    up: String,
    fused: String,
)
    requires
        old(params).wf(),
    ensures
        final(params).wf(),
        fusion(*final(params), *final(ops)) == fusion(*old(params), *old(ops)).fuse(
            gate@,
            up@,
            fused@,
        ),
{
    let g: Option<TensorInfo> = params.remove(gate.as_str());
    let u: Option<TensorInfo> = params.remove(up.as_str());
    match (g, u) {
        (Some(g), Some(u)) => {
            let nbytes: u64 = g.nbytes.saturating_add(u.nbytes);
            ops.push(ArrayConcat { into: g.array, with: u.array });
            params.insert(fused, TensorInfo { nbytes, ..g });
        },
        _ => {},
    }
}

fn rename_tensor(params: &mut Table<TensorInfo>, from: String, to: String)
    requires
        old(params).wf(),
    ensures
        final(params).wf(),
        forall|ops: Seq<ArrayConcat>|
            (Fusion { s: final(params).view(), ops }) == (#[trigger] Fusion {
                s: old(params).view(),
                ops,
            }.rename(from@, to@)),
{
    if !params.contains_key(to.as_str()) {
        match params.get(from.as_str()) {
            Some(t) => {
                params.remove(from.as_str());
                params.insert(to, t);
            },
            None => {},
        }
    }
}

/// Fuses the split experts of all layers, so that the model holds one tensor
/// for gate and up. Returns what the tensor runtime concatenates.
pub fn fuse_split_experts(params: &mut Table<TensorInfo>, num_layers: usize) -> (ops: Vec<ArrayConcat>)
    requires
        old(params).wf(),
    ensures
        final(params).wf(),
        fusion(*final(params), ops) == (Fusion { s: old(params).view(), ops: Seq::empty() }).layers(
            num_layers as int,
        ),
{
    let mut ops: Vec<ArrayConcat> = Vec::new();
    let ghost start = Fusion { s: params.view(), ops: Seq::empty() };
    let mut i: usize = 0;
    assert(fusion(*params, ops) =~= start);
    while i < num_layers
        invariant
            i <= num_layers,
            params.wf(),
            fusion(*params, ops) == start.layers(i as int),
        decreases num_layers - i,
    {
        fuse_pair(
            params,
            &mut ops,
            layer_name(i, ".experts.switch_glu.gate_proj.weight"),
            layer_name(i, ".experts.switch_glu.up_proj.weight"),
            layer_name(i, ".experts.gate_up_proj.weight"),
        );
        fuse_pair(
            params,
            &mut ops,
            layer_name(i, ".experts.switch_glu.gate_proj.scales"),
            layer_name(i, ".experts.switch_glu.up_proj.scales"),
            layer_name(i, ".experts.gate_up_proj.scales"),
        );
        fuse_pair(
            params,
            &mut ops,
            layer_name(i, ".experts.switch_glu.gate_proj.biases"),
            layer_name(i, ".experts.switch_glu.up_proj.biases"),
            layer_name(i, ".experts.gate_up_proj.biases"),
        );
        let ghost f3 = fusion(*params, ops);
        rename_tensor(
            params,
            layer_name(i, ".experts.switch_glu.down_proj.weight"),
            layer_name(i, ".experts.down_proj.weight"),
        );
        assert(fusion(*params, ops) == f3.rename(
            layer_key(i as int, ".experts.switch_glu.down_proj.weight"@),
            layer_key(i as int, ".experts.down_proj.weight"@),
        ));
        let ghost f4 = fusion(*params, ops);
        rename_tensor(
            params,
            layer_name(i, ".experts.switch_glu.down_proj.scales"),
            layer_name(i, ".experts.down_proj.scales"),
        );
        assert(fusion(*params, ops) == f4.rename(
            layer_key(i as int, ".experts.switch_glu.down_proj.scales"@),
            layer_key(i as int, ".experts.down_proj.scales"@),
        ));
        let ghost f5 = fusion(*params, ops);
        rename_tensor(
            params,
            layer_name(i, ".experts.switch_glu.down_proj.biases"),
            layer_name(i, ".experts.down_proj.biases"),
        );
        assert(fusion(*params, ops) == f5.rename(
            layer_key(i as int, ".experts.switch_glu.down_proj.biases"@),
            layer_key(i as int, ".experts.down_proj.biases"@),
        ));
        i += 1;
    }
    ops
}

/// Fusing leaves neither part behind, and every other tensor as it was.
pub proof fn law_fused_parts_are_gone(
    f: Fusion,
    gate: Seq<char>,
    up: Seq<char>,
    fused: Seq<char>,
    other: Seq<char>,
)
    requires
        distinct(f.s),
        gate != up,
        fused != gate,
        fused != up,
    ensures
        lookup(f.fuse(gate, up, fused).s, gate) is None,
        lookup(f.fuse(gate, up, fused).s, up) is None,
        other != gate && other != up && other != fused ==> lookup(
            f.fuse(gate, up, fused).s,
            other,
        ) == lookup(f.s, other),
        lookup(f.s, gate) is Some && lookup(f.s, up) is Some ==> lookup(
            f.fuse(gate, up, fused).s,
            fused,
        ) == Some(joined(lookup(f.s, gate)->0, lookup(f.s, up)->0)),
{
    law_cut_keeps_distinct(f.s, gate);
    law_lookup_cut(f.s, gate, up);
    law_lookup_cut(f.s, gate, gate);
    law_lookup_cut(f.s, gate, other);
    let once = cut(f.s, gate);
    law_lookup_cut(once, up, gate);
    law_lookup_cut(once, up, up);
    law_lookup_cut(once, up, other);
    let rest = cut(once, up);
    match (lookup(f.s, gate), lookup(once, up)) {
        (Some(g), Some(u)) => {
            law_lookup_put(rest, fused, joined(g, u), gate);
            law_lookup_put(rest, fused, joined(g, u), up);
            law_lookup_put(rest, fused, joined(g, u), other);
            law_lookup_put(rest, fused, joined(g, u), fused);
        },
        _ => {},
    }
}

/// How a tensor is quantized.
#[derive(Debug, Clone, Copy, PartialEq, Eq, Structural)]
pub enum PerLayerMode {
    Affine,
    Mxfp4,
    Mxfp8,
    Nvfp4,
    Sym8,
}

impl PerLayerMode {
    /// The name of the mode.
    pub open spec fn text(self) -> Seq<char> {
        match self {
            PerLayerMode::Affine => "Affine"@,
            PerLayerMode::Mxfp4 => "Mxfp4"@,
            PerLayerMode::Mxfp8 => "Mxfp8"@,
            PerLayerMode::Nvfp4 => "Nvfp4"@,
            PerLayerMode::Sym8 => "Sym8"@,
        }
    }

    /// The name of the mode.
    pub fn name(&self) -> (r: &'static str)
        ensures
            r@ == self.text(),
    {
        match self {
            PerLayerMode::Affine => "Affine",
            PerLayerMode::Mxfp4 => "Mxfp4",
            PerLayerMode::Mxfp8 => "Mxfp8",
            PerLayerMode::Nvfp4 => "Nvfp4",
            PerLayerMode::Sym8 => "Sym8",
        }
    }
}

/// The quantization of a tensor.
#[derive(Debug, Clone, Copy, PartialEq, Eq, Structural)]
pub struct PerLayerQuant {
    pub bits: i32,
    pub group_size: i32,
    pub mode: PerLayerMode,
    /// The largest input that calibration saw.
    pub input_amax: Option<Double>,
}

/// The settings of gate and up of layer `i`, as a checkpoint names them.
pub fn split_expert_quant(settings: &Table<PerLayerQuant>, i: usize) -> (r: (
    Option<PerLayerQuant>,
    Option<PerLayerQuant>,
))
    ensures
        r.0 == lookup(settings.view(), layer_key(i as int, ".experts.switch_glu.gate_proj"@)),
        r.1 == lookup(settings.view(), layer_key(i as int, ".experts.switch_glu.up_proj"@)),
{
    (
        settings.get(layer_name(i, ".experts.switch_glu.gate_proj").as_str()),
        settings.get(layer_name(i, ".experts.switch_glu.up_proj").as_str()),
    )
}

/// The settings with those of the fused experts of layer `i`.
pub open spec fn with_fused_quant(
    s: Seq<(Seq<char>, PerLayerQuant)>,
    i: int,
    merged: Option<PerLayerQuant>,
) -> Seq<(Seq<char>, PerLayerQuant)> {
    let one = match merged {
        Some(q) => put(s, layer_key(i, ".experts.gate_up_proj"@), q),
        None => s,
    };
    match lookup(one, layer_key(i, ".experts.switch_glu.down_proj"@)) {
        Some(q) => put(one, layer_key(i, ".experts.down_proj"@), q),
        None => one,
    }
}

/// The settings with those of the fused experts of the first `n` layers.
pub open spec fn with_fused_quants(
    s: Seq<(Seq<char>, PerLayerQuant)>,
    merged: Seq<Option<PerLayerQuant>>,
    n: int,
) -> Seq<(Seq<char>, PerLayerQuant)>
    decreases n,
{
    if n <= 0 {
        s
    } else {
        with_fused_quant(with_fused_quants(s, merged, n - 1), n - 1, merged[n - 1])
    }
}

/// Gives the fused experts the settings of the split ones. `merged` holds what
/// the settings of gate and up of each layer come to together.
pub fn merge_split_experts_into_fused(
    settings: &mut Table<PerLayerQuant>,
    merged: &Vec<Option<PerLayerQuant>>,
)
    requires
        old(settings).wf(),
    ensures
        final(settings).wf(),
        final(settings).view() == with_fused_quants(
            old(settings).view(),
            merged@,
            merged@.len() as int,
        ),
{
    let ghost start = settings.view();
    let mut i: usize = 0;
    while i < merged.len()
        invariant
            i <= merged@.len(),
            settings.wf(),
            settings.view() == with_fused_quants(start, merged@, i as int),
        decreases merged@.len() - i,
    {
        match merged[i] {
            Some(q) => settings.insert(layer_name(i, ".experts.gate_up_proj"), q),
            None => {},
        }
        match settings.get(layer_name(i, ".experts.switch_glu.down_proj").as_str()) {
            Some(q) => settings.insert(layer_name(i, ".experts.down_proj"), q),
            None => {},
        }
        i += 1;
    }
}

/// Bytes of the first `n` tensors.
pub open spec fn table_bytes(s: Seq<(Seq<char>, TensorInfo)>, n: int) -> int
    decreases n,
{
    if n <= 0 {
        0
    } else {
        table_bytes(s, n - 1) + s[n - 1].1.nbytes
    }
}

/// The sum of the first `n` numbers.
pub open spec fn sum_of(v: Seq<u64>, n: int) -> int
    decreases n,
{
    if n <= 0 {
        0
    } else {
        sum_of(v, n - 1) + v[n - 1]
    }
}

/// A number that is cut off at `u64::MAX`.
pub open spec fn cut_off(v: int) -> int {
    if v > u64::MAX {
        u64::MAX as int
    } else {
        v
    }
}

/// Bytes that a model keeps resident: its tensors, the shards of the per-layer
/// table, and a draft model.
pub fn total_weight_bytes(params: &Table<TensorInfo>, shards: &Vec<u64>, draft: Option<u64>) -> (r:
    u64)
    ensures
        r == cut_off(
            table_bytes(params.view(), params.view().len() as int) + sum_of(
                shards@,
                shards@.len() as int,
            ) + match draft {
                Some(d) => d as int,
                None => 0int,
            },
        ),
{
    let ghost s = params.view();
    let mut total: u64 = 0;
    let mut i: usize = 0;
    while i < params.entries.len()
        invariant
            i <= params.entries@.len(),
            s == params.view(),
            total == cut_off(table_bytes(s, i as int)),
            table_bytes(s, i as int) >= 0,
        decreases params.entries@.len() - i,
    {
        assert(s[i as int].1 == params.entries@[i as int].1);
        total = total.saturating_add(params.entries[i].1.nbytes);
        i += 1;
    }
    let ghost base = table_bytes(s, s.len() as int);
    let mut j: usize = 0;
    while j < shards.len()
        invariant
            j <= shards@.len(),
            base >= 0,
            total == cut_off(base + sum_of(shards@, j as int)),
            sum_of(shards@, j as int) >= 0,
        decreases shards@.len() - j,
    {
        total = total.saturating_add(shards[j]);
        j += 1;
    }
    match draft {
        Some(d) => total.saturating_add(d),
        None => total,
    }
}

/// Largest array that the per-layer table is kept in without a setting.
pub const DEFAULT_PLE_SHARD_BYTES: usize = 1_073_741_824;

/// The array size that a setting stands for: a positive number, else 1 GiB.
pub open spec fn shard_budget(value: Option<Seq<char>>) -> int {
    match value {
        None => DEFAULT_PLE_SHARD_BYTES as int,
        Some(text) => match parse_unsigned(trimmed(text), usize::MAX as int) {
            Some(n) => if n > 0 {
                n
            } else {
                DEFAULT_PLE_SHARD_BYTES as int
            },
            None => DEFAULT_PLE_SHARD_BYTES as int,
        },
    }
}

/// Largest array that the per-layer table is kept in.
pub fn ple_shard_byte_budget(setting: Option<&str>) -> (r: usize)
    ensures
        r == shard_budget(
            match setting {
                Some(t) => Some(t@),
                None => None,
            },
        ),
{
    match setting {
        None => DEFAULT_PLE_SHARD_BYTES,
        Some(text) => match parse_unsigned_chars(&trim_chars(text), usize::MAX as u64) {
            Some(n) => if n > 0 {
                n as usize
            } else {
                DEFAULT_PLE_SHARD_BYTES
            },
            None => DEFAULT_PLE_SHARD_BYTES,
        },
    }
}

/// Whether the per-layer table is kept in several arrays: a dense bfloat16 one
/// that is larger than the budget, of a model that has such a table.
pub fn needs_ple_sharding(
    params: &Table<TensorInfo>,
    config: &Gemma4Config,
    budget: usize,
) -> (r: bool)
    ensures
        r == (has_ple(*config) && lookup(params.view(), "embed_tokens_per_layer.scales"@) is None && (lookup(
            params.view(),
            "embed_tokens_per_layer.weight"@,
        ) matches Some(w) && w.dtype is BFloat16 && w.nbytes > budget)),
{
    if !takes_ple(config) || params.contains_key("embed_tokens_per_layer.scales") {
        return false;
    }
    match params.get("embed_tokens_per_layer.weight") {
        Some(w) => w.dtype == DType::BFloat16 && w.nbytes > budget as u64,
        None => false,
    }
}

/// Two tensors that are joined are as large as both together, as far as that can be
/// counted; all else is that of the first.
pub proof fn law_joined_tensors(a: TensorInfo, b: TensorInfo)
    ensures
        joined(a, b).array == a.array,
        joined(a, b).dtype == a.dtype,
        joined(a, b).last_dim == a.last_dim,
        a.nbytes + b.nbytes <= u64::MAX ==> joined(a, b).nbytes == a.nbytes + b.nbytes,
        a.nbytes + b.nbytes > u64::MAX ==> joined(a, b).nbytes == u64::MAX,
{
}

/// A tensor is renamed where its new name is free, and stays where it is not.
pub proof fn law_renaming(f: Fusion, from: Seq<char>, to: Seq<char>, t: TensorInfo)
    requires
        distinct(f.s),
        from != to,
        lookup(f.s, from) == Some(t),
    ensures
        lookup(f.s, to) is None ==> lookup(f.rename(from, to).s, to) == Some(t) && lookup(
            f.rename(from, to).s,
            from,
        ) is None,
        lookup(f.s, to) is Some ==> f.rename(from, to) == f,
        f.rename(from, to).ops == f.ops,
{
    law_lookup_cut(f.s, from, from);
    law_lookup_put(cut(f.s, from), to, t, to);
    law_lookup_put(cut(f.s, from), to, t, from);
}

/// Fused experts have the settings that those of gate and up come to together, and
/// those of the down part; settings of other names stay.
pub proof fn law_settings_of_fused_experts(
    s: Seq<(Seq<char>, PerLayerQuant)>,
    i: int,
    merged: Option<PerLayerQuant>,
    other: Seq<char>,
)
    requires
        0 <= i,
    ensures
        merged is Some ==> lookup(
            with_fused_quant(s, i, merged),
            layer_key(i, ".experts.gate_up_proj"@),
        ) == merged,
        merged is None ==> lookup(
            with_fused_quant(s, i, merged),
            layer_key(i, ".experts.gate_up_proj"@),
        ) == lookup(s, layer_key(i, ".experts.gate_up_proj"@)),
        lookup(s, layer_key(i, ".experts.switch_glu.down_proj"@)) is Some ==> lookup(
            with_fused_quant(s, i, merged),
            layer_key(i, ".experts.down_proj"@),
        ) == lookup(s, layer_key(i, ".experts.switch_glu.down_proj"@)),
        other != layer_key(i, ".experts.gate_up_proj"@) && other != layer_key(
            i,
            ".experts.down_proj"@,
        ) ==> lookup(with_fused_quant(s, i, merged), other) == lookup(s, other),
{
    reveal_strlit(".experts.gate_up_proj");
    reveal_strlit(".experts.down_proj");
    reveal_strlit(".experts.switch_glu.down_proj");
    assert(".experts.gate_up_proj"@.len() == 21);
    assert(".experts.down_proj"@.len() == 18);
    assert(".experts.switch_glu.down_proj"@.len() == 29);
    lemma_layer_keys_differ(i, ".experts.gate_up_proj"@, i, ".experts.down_proj"@);
    lemma_layer_keys_differ(i, ".experts.gate_up_proj"@, i, ".experts.switch_glu.down_proj"@);
    let gu = layer_key(i, ".experts.gate_up_proj"@);
    let split = layer_key(i, ".experts.switch_glu.down_proj"@);
    let down = layer_key(i, ".experts.down_proj"@);
    let one = match merged {
        Some(q) => put(s, gu, q),
        None => s,
    };
    if merged is Some {
        law_lookup_put(s, gu, merged->0, gu);
        law_lookup_put(s, gu, merged->0, split);
        law_lookup_put(s, gu, merged->0, other);
    }
    if lookup(one, split) is Some {
        let q = lookup(one, split)->0;
        law_lookup_put(one, down, q, gu);
        law_lookup_put(one, down, q, down);
        law_lookup_put(one, down, q, other);
    }
}

/// The bytes of a table are those of all its tensors: one more tensor adds its own, and
/// the order does not count.
pub proof fn law_bytes_of_a_table(
    a: Seq<(Seq<char>, TensorInfo)>,
    b: Seq<(Seq<char>, TensorInfo)>,
    v: Seq<u64>,
    w: Seq<u64>,
)
    ensures
        table_bytes(a + b, (a + b).len() as int) == table_bytes(a, a.len() as int) + table_bytes(
            b,
            b.len() as int,
        ),
        b.len() == 1 ==> table_bytes(b, 1) == b[0].1.nbytes,
        table_bytes(Seq::empty(), 0) == 0,
        sum_of(v + w, (v + w).len() as int) == sum_of(v, v.len() as int) + sum_of(
            w,
            w.len() as int,
        ),
        w.len() == 1 ==> sum_of(w, 1) == w[0],
        sum_of(Seq::empty(), 0) == 0,
{
    lemma_table_bytes_concat(a, b, b.len() as int);
    lemma_sum_concat(v, w, w.len() as int);
    reveal_with_fuel(table_bytes, 2);
    reveal_with_fuel(sum_of, 2);
}

proof fn lemma_table_bytes_concat(
    a: Seq<(Seq<char>, TensorInfo)>,
    b: Seq<(Seq<char>, TensorInfo)>,
    n: int,
)
    requires
        0 <= n <= b.len(),
    ensures
        table_bytes(a + b, a.len() + n) == table_bytes(a, a.len() as int) + table_bytes(b, n),
    decreases n,
{
    if n > 0 {
        lemma_table_bytes_concat(a, b, n - 1);
        assert((a + b)[a.len() + n - 1] == b[n - 1]);
    } else {
        lemma_table_bytes_prefix(a, b, a.len() as int);
    }
}

proof fn lemma_table_bytes_prefix(
    a: Seq<(Seq<char>, TensorInfo)>,
    b: Seq<(Seq<char>, TensorInfo)>,
    n: int,
)
    requires
        0 <= n <= a.len(),
    ensures
        table_bytes(a + b, n) == table_bytes(a, n),
    decreases n,
{
    if n > 0 {
        lemma_table_bytes_prefix(a, b, n - 1);
        assert((a + b)[n - 1] == a[n - 1]);
    }
}

proof fn lemma_sum_concat(v: Seq<u64>, w: Seq<u64>, n: int)
    requires
        0 <= n <= w.len(),
    ensures
        sum_of(v + w, v.len() + n) == sum_of(v, v.len() as int) + sum_of(w, n),
    decreases n,
{
    if n > 0 {
        lemma_sum_concat(v, w, n - 1);
        assert((v + w)[v.len() + n - 1] == w[n - 1]);
    } else {
        lemma_sum_prefix(v, w, v.len() as int);
    }
}

proof fn lemma_sum_prefix(v: Seq<u64>, w: Seq<u64>, n: int)
    requires
        0 <= n <= v.len(),
    ensures
        sum_of(v + w, n) == sum_of(v, n),
    decreases n,
{
    if n > 0 {
        lemma_sum_prefix(v, w, n - 1);
        assert((v + w)[n - 1] == v[n - 1]);
    }
}

/// A total that cannot be counted is the largest that can; any other is itself.
pub proof fn law_total_is_cut_off(v: int)
    ensures
        v <= u64::MAX ==> cut_off(v) == v,
        v > u64::MAX ==> cut_off(v) == u64::MAX,
{
}

/// The largest piece of the per-layer table is the number that is set, whatever white
/// space is around it; 1 GiB where nothing or no number above 0 is set.
pub proof fn law_number_sets_piece_size(front: Seq<char>, n: int, back: Seq<char>)
    requires
        0 <= n,
        forall|k: int| 0 <= k < front.len() ==> is_white(#[trigger] front[k]),
        forall|k: int| 0 <= k < back.len() ==> is_white(#[trigger] back[k]),
    ensures
        0 < n <= usize::MAX ==> shard_budget(Some(front + decimal(n) + back)) == n,
        n == 0 || n > usize::MAX ==> shard_budget(Some(front + decimal(n) + back)) == 1_073_741_824,
        shard_budget(None) == 1_073_741_824,
        shard_budget(Some(front)) == 1_073_741_824,
{
    let d = decimal(n);
    lemma_decimal_digits(n);
    assert(!is_white(d[0]) && !is_white(d.last()));
    law_trimming(front, d, back);
    law_trimming(front, Seq::empty(), Seq::empty());
    assert(front + Seq::<char>::empty() + Seq::<char>::empty() =~= front);
    law_decimal_is_read_back(n, usize::MAX as int);
}

/// Two modes never share a name.
pub proof fn law_names_of_modes(a: PerLayerMode, b: PerLayerMode)
    ensures
        a.text() == b.text() ==> a == b,
        PerLayerMode::Affine.text() == "Affine"@,
        PerLayerMode::Mxfp4.text() == "Mxfp4"@,
        PerLayerMode::Mxfp8.text() == "Mxfp8"@,
        PerLayerMode::Nvfp4.text() == "Nvfp4"@,
        PerLayerMode::Sym8.text() == "Sym8"@,
{
    reveal_strlit("Affine");
    reveal_strlit("Mxfp4");
    reveal_strlit("Mxfp8");
    reveal_strlit("Nvfp4");
    reveal_strlit("Sym8");
    assert("Affine"@[0] == 'A' && "Mxfp4"@[0] == 'M' && "Mxfp8"@[0] == 'M' && "Nvfp4"@[0] == 'N');
    assert("Sym8"@[0] == 'S' && "Mxfp4"@[4] == '4' && "Mxfp8"@[4] == '8');
}

} // verus!
