//! Properties of the stored forms written when state is seeded.
use vstd::prelude::*;
use crate::seeding::{StorageModel, storage_key_model, storage_model};
use crate::value::ValueModel;

verus! {

/// Plain values are stored as themselves: booleans, `u32`, `u64`,
/// addresses and symbols keep their kind and content; an absent option is
/// stored as void and a present one as what it holds.
pub proof fn law_plain_values_stored_as_themselves(b: bool, x: u32, y: u64, s: Seq<char>, inner: ValueModel)
    ensures
        storage_model(ValueModel::Bool(b)) == Ok::<StorageModel, Seq<char>>(StorageModel::Bool(b)),
        storage_model(ValueModel::U32(x)) == Ok::<StorageModel, Seq<char>>(StorageModel::U32(x)),
        storage_model(ValueModel::U64(y)) == Ok::<StorageModel, Seq<char>>(StorageModel::U64(y)),
        storage_model(ValueModel::Address(s)) == Ok::<StorageModel, Seq<char>>(StorageModel::Address(s)),
        storage_model(ValueModel::Symbol(s)) == Ok::<StorageModel, Seq<char>>(StorageModel::Symbol(s)),
        storage_model(ValueModel::Option(None)) == Ok::<StorageModel, Seq<char>>(StorageModel::Void),
        storage_model(ValueModel::Option(Some(Box::new(inner)))) == storage_model(inner),
{
}

/// An address, `u32`, `u64` or symbol key is never refused: its storage
/// key is the prefix as a symbol followed by the key itself.
pub proof fn law_plain_keys_accepted(x: u32, y: u64, s: Seq<char>, prefix: Seq<char>)
    ensures
        storage_key_model(ValueModel::U32(x), prefix) == Ok::<StorageModel, Seq<char>>(
            StorageModel::Vec(seq![StorageModel::Symbol(prefix), StorageModel::U32(x)]),
        ),
        storage_key_model(ValueModel::U64(y), prefix) == Ok::<StorageModel, Seq<char>>(
            StorageModel::Vec(seq![StorageModel::Symbol(prefix), StorageModel::U64(y)]),
        ),
        storage_key_model(ValueModel::Address(s), prefix) == Ok::<StorageModel, Seq<char>>(
            StorageModel::Vec(seq![StorageModel::Symbol(prefix), StorageModel::Address(s)]),
        ),
        storage_key_model(ValueModel::Symbol(s), prefix) == Ok::<StorageModel, Seq<char>>(
            StorageModel::Vec(seq![StorageModel::Symbol(prefix), StorageModel::Symbol(s)]),
        ),
{
}

/// A struct key whose fields all have stored forms is accepted: its storage
/// key is the prefix as a symbol followed by the map from each field name,
/// as a symbol, to the stored form of its value, in field order.
pub proof fn law_struct_keys_accepted(fields: Seq<(Seq<char>, ValueModel)>, prefix: Seq<char>)
    requires
        forall|i: int| 0 <= i < fields.len() ==> (#[trigger] storage_model(fields[i].1)) is Ok,
    ensures
        storage_key_model(ValueModel::Struct(fields), prefix) is Ok,
        storage_key_model(ValueModel::Struct(fields), prefix)->Ok_0 matches StorageModel::Vec(parts) && {
            &&& parts.len() == 2
            &&& parts[0] == StorageModel::Symbol(prefix)
            &&& parts[1] matches StorageModel::Mapping(pairs) && {
                &&& pairs.len() == fields.len()
                &&& forall|i: int| 0 <= i < fields.len() ==> #[trigger] pairs[i]
                    == (StorageModel::Symbol(fields[i].0), storage_model(fields[i].1)->Ok_0)
            }
        },
{
    crate::seeding::lemma_storage_fields(fields);
}

/// Keys of any other kind (booleans, bytes, maps, vectors, options) are
/// refused.
pub proof fn law_other_keys_refused(v: ValueModel, prefix: Seq<char>)
    requires
        v is Bool || v is Bytes || v is Mapping || v is Vec || v is Option,
    ensures
        storage_key_model(v, prefix) is Err,
{
}

} // verus!
