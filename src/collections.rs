//! The ordered collections of the `indexmap` crate that hold a provider's
//! models and the map of providers.
use vstd::prelude::*;
use indexmap::{IndexMap, IndexSet};
use crate::config::GlobalProviderConfig;
use crate::model_id::{same_model_spec, ModelId};
use crate::provider::{same_provider, InferenceProvider};

verus! {

#[verifier::external_type_specification]
#[verifier::external_body]
#[verifier::reject_recursive_types(K)]
#[verifier::reject_recursive_types(V)]
#[verifier::reject_recursive_types(S)]
pub struct ExIndexMap<K, V, S>(IndexMap<K, V, S>);

#[verifier::external_type_specification]
#[verifier::external_body]
#[verifier::reject_recursive_types(T)]
#[verifier::reject_recursive_types(S)]
pub struct ExIndexSet<T, S>(IndexSet<T, S>);

/// The models that a set holds, in insertion order.
pub uninterp spec fn model_set_items(s: IndexSet<ModelId>) -> Seq<ModelId>;

/// The providers and settings that a map holds, in insertion order.
pub uninterp spec fn provider_map_entries(
    m: IndexMap<InferenceProvider, GlobalProviderConfig>,
) -> Seq<(InferenceProvider, GlobalProviderConfig)>;

/// Relies on `IndexSet::new`: an empty set.
#[verifier::external_body]
pub(crate) fn new_model_set() -> (r: IndexSet<ModelId>)
    ensures
        model_set_items(r) == Seq::<ModelId>::empty(),
{
    IndexSet::new()
}

/// Relies on `IndexSet::insert`: when an equal model is present the set is
/// left as it was and `false` comes back; otherwise the model goes last and
/// `true` comes back.
#[verifier::external_body]
pub(crate) fn insert_model(s: &mut IndexSet<ModelId>, m: ModelId) -> (r: bool)
    ensures
        r == !(exists|i: int|
            0 <= i < model_set_items(*old(s)).len() && same_model_spec(
                #[trigger] model_set_items(*old(s))[i],
                m,
            )),
        r ==> model_set_items(*final(s)) == model_set_items(*old(s)).push(m),
        !r ==> model_set_items(*final(s)) == model_set_items(*old(s)),
{
    s.insert(m)
}

/// Relies on `IndexSet::len`: the number of models held.
#[verifier::external_body]
pub(crate) fn model_set_len(s: &IndexSet<ModelId>) -> (r: usize)
    ensures
        r == model_set_items(*s).len(),
{
    s.len()
}

/// Relies on `IndexSet::get_index`: the model at position `i`, if any.
#[verifier::external_body]
pub(crate) fn model_set_get(s: &IndexSet<ModelId>, i: usize) -> (r: Option<&ModelId>)
    ensures
        r is Some <==> i < model_set_items(*s).len(),
        r matches Some(m) ==> *m == model_set_items(*s)[i as int],
{
    s.get_index(i)
}

/// Relies on `IndexMap::new`: an empty map.
#[verifier::external_body]
pub(crate) fn new_provider_map() -> (r: IndexMap<InferenceProvider, GlobalProviderConfig>)
    ensures
        provider_map_entries(r) == Seq::<(InferenceProvider, GlobalProviderConfig)>::empty(),
{
    IndexMap::new()
}

/// Relies on `IndexMap::insert`: a key equal to none present goes last with its value.
#[verifier::external_body]
pub(crate) fn insert_new_provider(
    m: &mut IndexMap<InferenceProvider, GlobalProviderConfig>,
    k: InferenceProvider,
    v: GlobalProviderConfig,
)
    requires
        forall|i: int|
            0 <= i < provider_map_entries(*old(m)).len() ==> !(
            (#[trigger] provider_map_entries(*old(m))[i]).0 is Named <==> k is Named) || provider_map_entries(
                *old(m),
            )[i].0@ != k@,
    ensures
        provider_map_entries(*final(m)) == provider_map_entries(*old(m)).push((k, v)),
{
    m.insert(k, v);
}

/// Relies on `IndexMap::len`: the number of providers held.
#[verifier::external_body]
pub(crate) fn provider_map_len(m: &IndexMap<InferenceProvider, GlobalProviderConfig>) -> (r: usize)
    ensures
        r == provider_map_entries(*m).len(),
{
    m.len()
}

/// Relies on `IndexMap::get_index`: the provider and settings at position `i`, if any.
#[verifier::external_body]
pub(crate) fn provider_map_get(
    m: &IndexMap<InferenceProvider, GlobalProviderConfig>,
    i: usize,
) -> (r: Option<(&InferenceProvider, &GlobalProviderConfig)>)
    ensures
        r is Some <==> i < provider_map_entries(*m).len(),
        r matches Some(e) ==> *e.0 == provider_map_entries(*m)[i as int].0 && *e.1
            == provider_map_entries(*m)[i as int].1,
{
    m.get_index(i)
}

/// `s` after inserting `(k, v)` as `IndexMap::insert` does: an equal key
/// keeps its place and takes the new value; otherwise the pair goes last.
pub open spec fn map_inserted(
    s: Seq<(InferenceProvider, GlobalProviderConfig)>,
    k: InferenceProvider,
    v: GlobalProviderConfig,
) -> Seq<(InferenceProvider, GlobalProviderConfig)> {
    if exists|i: int| 0 <= i < s.len() && same_provider(#[trigger] s[i].0, k) {
        let i = choose|i: int| 0 <= i < s.len() && same_provider(#[trigger] s[i].0, k);
        s.update(i, (s[i].0, v))
    } else {
        s.push((k, v))
    }
}

/// The entries of a map built by inserting `pairs` in order into an empty map.
pub open spec fn map_built(
    pairs: Seq<(InferenceProvider, GlobalProviderConfig)>,
) -> Seq<(InferenceProvider, GlobalProviderConfig)>
    decreases pairs.len(),
{
    if pairs.len() == 0 {
        Seq::empty()
    } else {
        map_inserted(map_built(pairs.drop_last()), pairs.last().0, pairs.last().1)
    }
}

/// Relies on `IndexMap::from_iter`, which inserts each pair in order with
/// `IndexMap::insert`.
#[verifier::external_body]
pub(crate) fn collect_provider_map(
    pairs: Vec<(InferenceProvider, GlobalProviderConfig)>,
) -> (r: IndexMap<InferenceProvider, GlobalProviderConfig>)
    ensures
        provider_map_entries(r) == map_built(pairs@),
{
    pairs.into_iter().collect()
}

} // verus!
