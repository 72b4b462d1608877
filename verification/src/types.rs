//! The contents of a DBC file, and their mathematical models.
//!
//! A number that the grammar reads as floating point is held as the decimal text
//! that was read ([`FloatLiteral`]); every such text is accepted by `str::parse::<f64>`.
use vstd::prelude::*;

verus! {

/// The decimal text of a floating-point number: an optional sign, digits with an
/// optional fraction (or a fraction alone), and an optional exponent.
#[derive(Debug, Clone, PartialEq)]
pub struct FloatLiteral(pub String);

impl DeepView for FloatLiteral {
    type V = Seq<char>;

    open spec fn deep_view(&self) -> Seq<char> {
        self.0@
    }
}

#[derive(Debug, PartialEq)]
pub struct Dbc(pub String);

#[derive(Debug, PartialEq)]
pub struct Label(pub String);

#[derive(Debug, PartialEq)]
pub struct Signal {
    pub name: String,
    pub signal_type: SignalType,
    pub offset: u64,
    pub length: u64,
    pub endianess: Endianess,
    pub value_type: ValueType,
    pub slope: FloatLiteral,
    pub intercept: FloatLiteral,
    pub min: FloatLiteral,
    pub max: FloatLiteral,
    pub unit: String,
    pub receivers: Vec<String>,
}

pub struct SpecSignal {
    pub name: Seq<char>,
    pub signal_type: SignalType,
    pub offset: u64,
    pub length: u64,
    pub endianess: Endianess,
    pub value_type: ValueType,
    pub slope: Seq<char>,
    pub intercept: Seq<char>,
    pub min: Seq<char>,
    pub max: Seq<char>,
    pub unit: Seq<char>,
    pub receivers: Seq<Seq<char>>,
}

impl DeepView for Signal {
    type V = SpecSignal;

    open spec fn deep_view(&self) -> SpecSignal {
        SpecSignal {
            name: self.name@,
            signal_type: self.signal_type,
            offset: self.offset,
            length: self.length,
            endianess: self.endianess,
            value_type: self.value_type,
            slope: self.slope.deep_view(),
            intercept: self.intercept.deep_view(),
            min: self.min.deep_view(),
            max: self.max.deep_view(),
            unit: self.unit@,
            receivers: self.receivers.deep_view(),
        }
    }
}

#[derive(Debug, Clone, Copy, PartialEq, Eq)]
pub struct SignalCommentId(pub u64);

impl DeepView for SignalCommentId {
    type V = u64;

    open spec fn deep_view(&self) -> u64 {
        self.0
    }
}

#[derive(Debug, Clone, Copy, PartialEq, Eq)]
pub struct MessageId(pub u64);

impl DeepView for MessageId {
    type V = u64;

    open spec fn deep_view(&self) -> u64 {
        self.0
    }
}

#[derive(Debug, PartialEq)]
pub struct MessageTransmitter(pub String);

#[derive(Debug, PartialEq)]
pub struct Version(pub String);

impl DeepView for Version {
    type V = Seq<char>;

    open spec fn deep_view(&self) -> Seq<char> {
        self.0@
    }
}

#[derive(Debug, PartialEq)]
pub struct Symbol(pub String);

impl DeepView for Symbol {
    type V = Seq<char>;

    open spec fn deep_view(&self) -> Seq<char> {
        self.0@
    }
}

#[derive(Debug, Clone, Copy, PartialEq, Eq)]
pub enum SignalType {
    /// Multiplexor switch
    Multiplexor,
    /// Signal us being multiplexed by the multiplexer switch.
    MultiplexedSignal(u64),
    /// Normal signal
    Plain,
}

impl DeepView for SignalType {
    type V = SignalType;

    open spec fn deep_view(&self) -> SignalType {
        *self
    }
}

#[derive(Debug, Clone, Copy, PartialEq, Eq)]
pub enum Endianess {
    LittleEndian,
    BigEndian,
}

impl DeepView for Endianess {
    type V = Endianess;

    open spec fn deep_view(&self) -> Endianess {
        *self
    }
}

#[derive(Debug, Clone, Copy, PartialEq, Eq)]
pub enum ValueType {
    Signed,
    Unsigned,
}

impl DeepView for ValueType {
    type V = ValueType;

    open spec fn deep_view(&self) -> ValueType {
        *self
    }
}

#[derive(Debug, Clone, Copy, PartialEq, Eq)]
pub enum EnvType {
    EnvTypeFloat,
    EnvTypeu64,
    EnvTypeData,
}

impl DeepView for EnvType {
    type V = EnvType;

    open spec fn deep_view(&self) -> EnvType {
        *self
    }
}

#[derive(Debug, PartialEq)]
pub struct ECUDef(pub String);

/// A named value of a value table.
pub type KeyValue = (String, i64);

#[derive(Debug, PartialEq)]
pub struct LabelDescription {
    pub id: u64,
    pub signal_name: String,
    pub labels: Vec<Label>,
    pub extended: bool,
}

#[derive(Debug, PartialEq)]
pub enum Transmitter {
    TransmitterNodeName(String),
    TransmitterNoSender,
}

#[allow(non_camel_case_types)]
#[derive(Debug, Clone, Copy, PartialEq, Eq)]
pub enum AccessType {
    DUMMY_NODE_VECTOR0,
    DUMMY_NODE_VECTOR1,
    DUMMY_NODE_VECTOR2,
    DUMMY_NODE_VECTOR3,
}

impl DeepView for AccessType {
    type V = AccessType;

    open spec fn deep_view(&self) -> AccessType {
        *self
    }
}

#[derive(Debug, PartialEq)]
pub enum AccessNode {
    AccessNodeVectorXXX,
    AccessNodeName(String),
}

pub enum SpecAccessNode {
    AccessNodeVectorXXX,
    AccessNodeName(Seq<char>),
}

impl DeepView for AccessNode {
    type V = SpecAccessNode;

    open spec fn deep_view(&self) -> SpecAccessNode {
        match self {
            AccessNode::AccessNodeVectorXXX => SpecAccessNode::AccessNodeVectorXXX,
            AccessNode::AccessNodeName(n) => SpecAccessNode::AccessNodeName(n@),
        }
    }
}

#[derive(Debug, PartialEq)]
pub enum SignalAttributeValue {
    Text(String),
    Int(i64),
}

#[derive(Debug, PartialEq)]
pub enum AttributeValuedForObjectType {
    RawAttributeValue(AttributeValue),
    NetworkNodeAttributeValue(String, AttributeValue),
    MessageDefinitionAttributeValue(MessageId, AttributeValue),
    SignalAttributeValue(MessageId, String, AttributeValue),
    EnvVariableAttributeValue(String, AttributeValue),
}

pub enum SpecObjectAttributeValue {
    RawAttributeValue(SpecAttributeValue),
    NetworkNodeAttributeValue(Seq<char>, SpecAttributeValue),
    MessageDefinitionAttributeValue(u64, SpecAttributeValue),
    SignalAttributeValue(u64, Seq<char>, SpecAttributeValue),
    EnvVariableAttributeValue(Seq<char>, SpecAttributeValue),
}

impl DeepView for AttributeValuedForObjectType {
    type V = SpecObjectAttributeValue;

    open spec fn deep_view(&self) -> SpecObjectAttributeValue {
        match self {
            AttributeValuedForObjectType::RawAttributeValue(v) => {
                SpecObjectAttributeValue::RawAttributeValue(v.deep_view())
            },
            AttributeValuedForObjectType::NetworkNodeAttributeValue(n, v) => {
                SpecObjectAttributeValue::NetworkNodeAttributeValue(n@, v.deep_view())
            },
            AttributeValuedForObjectType::MessageDefinitionAttributeValue(id, v) => {
                SpecObjectAttributeValue::MessageDefinitionAttributeValue(id.0, v.deep_view())
            },
            AttributeValuedForObjectType::SignalAttributeValue(id, n, v) => {
                SpecObjectAttributeValue::SignalAttributeValue(id.0, n@, v.deep_view())
            },
            AttributeValuedForObjectType::EnvVariableAttributeValue(n, v) => {
                SpecObjectAttributeValue::EnvVariableAttributeValue(n@, v.deep_view())
            },
        }
    }
}

#[derive(Debug, PartialEq)]
pub enum AttributeValueType {
    AttributeValueTypeInt(i64, i64),
    AttributeValueTypeHex(i64, i64),
    AttributeValueTypeFloat(FloatLiteral, FloatLiteral),
    AttributeValueTypeString,
    AttributeValueTypeEnum(Vec<String>),
}

#[derive(Debug, PartialEq)]
pub struct ValueDescription {
    pub a: FloatLiteral,
    pub b: String,
}

pub struct SpecValueDescription {
    pub a: Seq<char>,
    pub b: Seq<char>,
}

impl DeepView for ValueDescription {
    type V = SpecValueDescription;

    open spec fn deep_view(&self) -> SpecValueDescription {
        SpecValueDescription { a: self.a.deep_view(), b: self.b@ }
    }
}

#[derive(Debug, PartialEq)]
pub struct AttributeDefault {
    pub name: String,
    pub value: AttributeValue,
}

#[derive(Debug, PartialEq)]
pub enum AttributeValue {
    AttributeValueU64(u64),
    AttributeValueI64(i64),
    AttributeValueF64(FloatLiteral),
    AttributeValueCharString(String),
}

pub enum SpecAttributeValue {
    AttributeValueU64(u64),
    AttributeValueI64(i64),
    AttributeValueF64(Seq<char>),
    AttributeValueCharString(Seq<char>),
}

impl DeepView for AttributeValue {
    type V = SpecAttributeValue;

    open spec fn deep_view(&self) -> SpecAttributeValue {
        match self {
            AttributeValue::AttributeValueU64(x) => SpecAttributeValue::AttributeValueU64(*x),
            AttributeValue::AttributeValueI64(x) => SpecAttributeValue::AttributeValueI64(*x),
            AttributeValue::AttributeValueF64(x) => SpecAttributeValue::AttributeValueF64(
                x.deep_view(),
            ),
            AttributeValue::AttributeValueCharString(x) => {
                SpecAttributeValue::AttributeValueCharString(x@)
            },
        }
    }
}

#[derive(Debug, PartialEq)]
pub enum DbcElement {
    ValueTable(String, Vec<KeyValue>),
    NetworkNodeComment(String),
    MessageDefinitionComment(MessageId, String, String, bool),
    SignalComment(SignalCommentId, String, String, bool),
    EnvVarComment(String),
    Message(MessageId, bool, String, u64, String, Vec<Signal>),
    EnvVariable(
        String,
        EnvType,
        i64,
        i64,
        String,
        FloatLiteral,
        i64,
        AccessType,
        Vec<AccessNode>,
    ),
    BitTimingSection,
    EnvVarData(String, u64),
    NetworkNode(Vec<String>),
    ///
    /// BA_DEF_DEF
    ///
    AttributeDefault(String, AttributeValue),
    AttributeValueForObject(String, AttributeValuedForObjectType),
    Def,
    ///
    /// BA_DEF BO
    ///
    BODef(String),
    ///
    /// BA_DEF BU
    ///
    BUDef(String),
    ValueDescriptionsForSignal(MessageId, String, Vec<ValueDescription>),
    ValueDescriptionsForEnvVar(String, Vec<ValueDescription>),
}

pub enum SpecDbcElement {
    ValueTable(Seq<char>, Seq<(Seq<char>, i64)>),
    NetworkNodeComment(Seq<char>),
    MessageDefinitionComment(u64, Seq<char>, Seq<char>, bool),
    SignalComment(u64, Seq<char>, Seq<char>, bool),
    EnvVarComment(Seq<char>),
    Message(u64, bool, Seq<char>, u64, Seq<char>, Seq<SpecSignal>),
    EnvVariable(
        Seq<char>,
        EnvType,
        i64,
        i64,
        Seq<char>,
        Seq<char>,
        i64,
        AccessType,
        Seq<SpecAccessNode>,
    ),
    BitTimingSection,
    EnvVarData(Seq<char>, u64),
    NetworkNode(Seq<Seq<char>>),
    AttributeDefault(Seq<char>, SpecAttributeValue),
    AttributeValueForObject(Seq<char>, SpecObjectAttributeValue),
    Def,
    BODef(Seq<char>),
    BUDef(Seq<char>),
    ValueDescriptionsForSignal(u64, Seq<char>, Seq<SpecValueDescription>),
    ValueDescriptionsForEnvVar(Seq<char>, Seq<SpecValueDescription>),
}

impl DeepView for DbcElement {
    type V = SpecDbcElement;

    open spec fn deep_view(&self) -> SpecDbcElement {
        match self {
            DbcElement::ValueTable(n, kv) => SpecDbcElement::ValueTable(n@, kv.deep_view()),
            DbcElement::NetworkNodeComment(c) => SpecDbcElement::NetworkNodeComment(c@),
            DbcElement::MessageDefinitionComment(id, n, c, b) => {
                SpecDbcElement::MessageDefinitionComment(id.0, n@, c@, *b)
            },
            DbcElement::SignalComment(id, n, c, b) => SpecDbcElement::SignalComment(
                id.0,
                n@,
                c@,
                *b,
            ),
            DbcElement::EnvVarComment(c) => SpecDbcElement::EnvVarComment(c@),
            DbcElement::Message(id, b, n, size, t, sigs) => SpecDbcElement::Message(
                id.0,
                *b,
                n@,
                *size,
                t@,
                sigs.deep_view(),
            ),
            DbcElement::EnvVariable(n, ty, min, max, unit, init, id, at, nodes) => {
                SpecDbcElement::EnvVariable(
                    n@,
                    *ty,
                    *min,
                    *max,
                    unit@,
                    init.deep_view(),
                    *id,
                    *at,
                    nodes.deep_view(),
                )
            },
            DbcElement::BitTimingSection => SpecDbcElement::BitTimingSection,
            DbcElement::EnvVarData(n, size) => SpecDbcElement::EnvVarData(n@, *size),
            DbcElement::NetworkNode(nodes) => SpecDbcElement::NetworkNode(nodes.deep_view()),
            DbcElement::AttributeDefault(n, v) => SpecDbcElement::AttributeDefault(
                n@,
                v.deep_view(),
            ),
            DbcElement::AttributeValueForObject(n, v) => SpecDbcElement::AttributeValueForObject(
                n@,
                v.deep_view(),
            ),
            DbcElement::Def => SpecDbcElement::Def,
            DbcElement::BODef(x) => SpecDbcElement::BODef(x@),
            DbcElement::BUDef(x) => SpecDbcElement::BUDef(x@),
            DbcElement::ValueDescriptionsForSignal(id, n, d) => {
                SpecDbcElement::ValueDescriptionsForSignal(id.0, n@, d.deep_view())
            },
            DbcElement::ValueDescriptionsForEnvVar(n, d) => {
                SpecDbcElement::ValueDescriptionsForEnvVar(n@, d.deep_view())
            },
        }
    }
}

#[derive(Debug, PartialEq)]
pub struct DbcDefinition {
    pub version: Version,
    pub symbols: Vec<Symbol>,
    pub elements: Vec<DbcElement>,
}

pub struct SpecDbcDefinition {
    pub version: Seq<char>,
    pub symbols: Seq<Seq<char>>,
    pub elements: Seq<SpecDbcElement>,
}

impl DeepView for DbcDefinition {
    type V = SpecDbcDefinition;

    open spec fn deep_view(&self) -> SpecDbcDefinition {
        SpecDbcDefinition {
            version: self.version.deep_view(),
            symbols: self.symbols.deep_view(),
            elements: self.elements.deep_view(),
        }
    }
}

} // verus!
