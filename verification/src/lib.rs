//! A parser for DBC files, the text format that describes the messages and
//! signals of a CAN bus.
//!
//! Every parser reads a byte slice that may be the start of a longer input and
//! returns the input that is left with the value, or a [`ParseError`]:
//! `Incomplete` where the bytes end before the grammar can decide.
pub mod outcome;
pub mod lexical;
pub mod types;
pub mod signal;
pub mod attributes;
pub mod comments;
pub mod values;
pub mod environment;
pub mod document;

pub use outcome::ParseError;
pub use types::{
    AccessNode, AccessType, AttributeDefault, AttributeValue, AttributeValueType,
    AttributeValuedForObjectType, Dbc, DbcDefinition, DbcElement, ECUDef, EnvType, Endianess,
    FloatLiteral, KeyValue, Label, LabelDescription, MessageId, MessageTransmitter, Signal,
    SignalAttributeValue, SignalCommentId, SignalType, Symbol, Transmitter, ValueDescription,
    ValueType, Version,
};
pub use signal::{
    big_endian, c_ident, c_ident_vec, endianess, little_endian, message_definition, message_id,
    multiplexer, multiplexor, plain, signal, signal_comment_id, signal_type, signed, unsigned,
    value_type,
};
pub use attributes::{
    attribute_default, attribute_value, attribute_value_charstr, attribute_value_f64,
    attribute_value_for_object, attribute_value_int64, attribute_value_uint64, bo_def, bu_def,
    custom_attr_def, env_variable_attribute_value, message_definition_attribute_value,
    network_node_attribute_value, raw_attribute_value, signal_attribute_value,
};
pub use comments::{comment, message_definition_comment, signal_comment};
pub use values::{
    value_description, value_description_for_env_var, value_description_for_signal,
    value_descriptions,
};
pub use environment::{access_node, access_type, env_var_type, environment_variable, envvar_data};
pub use document::{dbc_definition, dbc_element, network_node, new_symbols, symbol, version};
pub mod streaming;
pub mod laws;
