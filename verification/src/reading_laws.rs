//! Properties of reading a contract's interface from its spec entries.
use vstd::prelude::*;
use crate::contract_spec::{function_of, struct_of, type_text};

verus! {

/// A function read from a function entry keeps the entry's name, has one
/// input per declared input, in order, each with the declared input's name
/// and the text of its declared type, and one output per declared output,
/// in order, each the text of its type.
pub proof fn law_function_keeps_its_signature(
    name: Seq<char>,
    inputs: Seq<(Seq<char>, Seq<u8>)>,
    outputs: Seq<Seq<u8>>,
)
    ensures
        function_of((name, inputs, outputs)).name == name,
        function_of((name, inputs, outputs)).inputs.len() == inputs.len(),
        forall|i: int| 0 <= i < inputs.len() ==> {
            &&& (#[trigger] function_of((name, inputs, outputs)).inputs[i]).name == inputs[i].0
            &&& function_of((name, inputs, outputs)).inputs[i].type_ref == type_text(inputs[i].1)
        },
        function_of((name, inputs, outputs)).outputs.len() == outputs.len(),
        forall|i: int| 0 <= i < outputs.len() ==>
            #[trigger] function_of((name, inputs, outputs)).outputs[i] == type_text(outputs[i]),
{
}

/// A struct read from a struct entry keeps the entry's name, is described
/// as a struct, and has one field per declared field, in order, each with
/// the declared name and the text of its declared type.
pub proof fn law_struct_keeps_its_fields(name: Seq<char>, fields: Seq<(Seq<char>, Seq<u8>)>)
    ensures
        struct_of((name, fields)).name == name,
        struct_of((name, fields)).description == "struct"@,
        struct_of((name, fields)).fields.len() == fields.len(),
        forall|i: int| 0 <= i < fields.len() ==> {
            &&& (#[trigger] struct_of((name, fields)).fields[i]).name == fields[i].0
            &&& struct_of((name, fields)).fields[i].type_ref == type_text(fields[i].1)
        },
{
}

} // verus!
