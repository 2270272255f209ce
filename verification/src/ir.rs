//! The part of the IR that instruction selection reads: the values that
//! instructions refer to, and which instructions use the result of which.

use vstd::prelude::*;

verus! {

/// A value of the IR, named by its position in the value table.
#[derive(Clone, Copy, Debug, PartialEq, Eq, Structural)]
pub struct ValueId(pub usize);

/// An instruction of the IR, named by its position in the function.
#[derive(Clone, Copy, Debug, PartialEq, Eq, Structural)]
pub struct InstructionId(pub usize);

/// A basic block of the IR, named by its position in the function.
#[derive(Clone, Copy, Debug, PartialEq, Eq, Structural)]
pub struct BlockId(pub usize);

/// The name of a global: spelled out, or a number.
#[derive(Debug, PartialEq, Eq)]
pub enum Name {
    Name(String),
    Number(usize),
}

/// The model of a [`Name`].
pub enum NameView {
    Name(Seq<char>),
    Number(usize),
}

/// A constant of the IR.
#[derive(Debug, PartialEq, Eq)]
pub enum ConstantValue {
    /// A value that is not defined.
    Undef,
    /// An integer.
    Int32(i32),
    /// An array of integers.
    Array(Vec<i32>),
    /// A value of any type whose every limb is zero.
    AggregateZero,
    /// A reference to a global, such as a function.
    GlobalRef(Name),
}

/// The model of a [`ConstantValue`].
pub enum ConstantView {
    Undef,
    Int32(i32),
    Array(Seq<i32>),
    AggregateZero,
    GlobalRef(NameView),
}

/// What an instruction can refer to.
#[derive(Debug, PartialEq, Eq)]
pub enum Value {
    /// The result of an instruction.
    Instruction(InstructionId),
    /// A constant.
    Constant(ConstantValue),
}

/// The model of a [`Value`].
pub enum ValueView {
    Instruction(InstructionId),
    Constant(ConstantView),
}

impl View for Name {
    type V = NameView;

    open spec fn view(&self) -> NameView {
        match self {
            Name::Name(name) => NameView::Name(name@),
            Name::Number(n) => NameView::Number(*n),
        }
    }
}

impl View for ConstantValue {
    type V = ConstantView;

    open spec fn view(&self) -> ConstantView {
        match self {
            ConstantValue::Undef => ConstantView::Undef,
            ConstantValue::Int32(i) => ConstantView::Int32(*i),
            ConstantValue::Array(elems) => ConstantView::Array(elems@),
            ConstantValue::AggregateZero => ConstantView::AggregateZero,
            ConstantValue::GlobalRef(name) => ConstantView::GlobalRef(name@),
        }
    }
}

impl View for Value {
    type V = ValueView;

    open spec fn view(&self) -> ValueView {
        match self {
            Value::Instruction(id) => ValueView::Instruction(*id),
            Value::Constant(konst) => ValueView::Constant(konst@),
        }
    }
}

impl DeepView for Value {
    type V = ValueView;

    open spec fn deep_view(&self) -> ValueView {
        self@
    }
}

impl Clone for Name {
    fn clone(&self) -> (copy: Self)
        ensures
            copy@ == self@,
    {
        match self {
            Name::Name(name) => Name::Name(name.clone()),
            Name::Number(n) => Name::Number(*n),
        }
    }
}

impl Clone for ConstantValue {
    fn clone(&self) -> (copy: Self)
        ensures
            copy@ == self@,
    {
        match self {
            ConstantValue::Undef => ConstantValue::Undef,
            ConstantValue::Int32(i) => ConstantValue::Int32(*i),
            ConstantValue::Array(elems) => ConstantValue::Array(elems.clone()),
            ConstantValue::AggregateZero => ConstantValue::AggregateZero,
            ConstantValue::GlobalRef(name) => ConstantValue::GlobalRef(name.clone()),
        }
    }
}

impl Clone for Value {
    fn clone(&self) -> (copy: Self)
        ensures
            copy@ == self@,
    {
        match self {
            Value::Instruction(id) => Value::Instruction(*id),
            Value::Constant(konst) => Value::Constant(konst.clone()),
        }
    }
}

/// The model of the IR of one function.
pub struct IrView {
    /// The values, by [`ValueId`].
    pub values: Seq<ValueView>,
    /// For each instruction, by [`InstructionId`], the instructions that use
    /// its result.
    pub users: Seq<Seq<InstructionId>>,
}

impl IrView {
    /// The value that `id` names, if it names one.
    pub open spec fn value(self, id: ValueId) -> Option<ValueView> {
        if id.0 < self.values.len() {
            Some(self.values[id.0 as int])
        } else {
            None
        }
    }

    /// Whether `id` names an instruction of the function.
    pub open spec fn has_instruction(self, id: InstructionId) -> bool {
        id.0 < self.users.len()
    }

    /// Whether some instruction uses the result of `id`.
    pub open spec fn has_users(self, id: InstructionId) -> bool {
        self.has_instruction(id) && self.users[id.0 as int].len() > 0
    }
}

/// The IR of one function, as far as instruction selection reads it.
pub struct IrData {
    values: Vec<Value>,
    users: Vec<Vec<InstructionId>>,
}

impl View for IrData {
    type V = IrView;

    closed spec fn view(&self) -> IrView {
        IrView {
            values: self.values.deep_view(),
            users: Seq::new(self.users@.len(), |i: int| self.users@[i]@),
        }
    }
}

impl IrData {
    /// An IR without values or instructions.
    pub fn new() -> (ir: Self)
        ensures
            ir@.values == Seq::<ValueView>::empty(),
            ir@.users == Seq::<Seq<InstructionId>>::empty(),
    {
        let ir = IrData { values: Vec::new(), users: Vec::new() };
        assert(ir@.values =~= Seq::<ValueView>::empty());
        assert(ir@.users =~= Seq::<Seq<InstructionId>>::empty());
        ir
    }

    /// Adds a value and returns its name.
    pub fn create_value(&mut self, value: Value) -> (id: ValueId)
        ensures
            id.0 == old(self)@.values.len(),
            final(self)@.values == old(self)@.values.push(value@),
            final(self)@.users == old(self)@.users,
    {
        let id = ValueId(self.values.len());
        self.values.push(value);
        assert(self@.values =~= old(self)@.values.push(value@));
        assert(self@.users =~= old(self)@.users);
        id
    }

    /// Adds an instruction, which nothing uses yet, and returns its name.
    pub fn create_instruction(&mut self) -> (id: InstructionId)
        ensures
            id.0 == old(self)@.users.len(),
            final(self)@.values == old(self)@.values,
            final(self)@.users == old(self)@.users.push(Seq::empty()),
    {
        let id = InstructionId(self.users.len());
        self.users.push(Vec::new());
        assert(self@.users =~= old(self)@.users.push(Seq::empty()));
        id
    }

    /// Records that `user` uses the result of `def`. Says whether `def` is an
    /// instruction of the function; where it is not, nothing changes.
    pub fn add_user(&mut self, def: InstructionId, user: InstructionId) -> (known: bool)
        ensures
            known == old(self)@.has_instruction(def),
            final(self)@.values == old(self)@.values,
            known ==> final(self)@.users == old(self)@.users.update(
                def.0 as int,
                old(self)@.users[def.0 as int].push(user),
            ),
            !known ==> final(self)@.users == old(self)@.users,
    {
        if def.0 < self.users.len() {
            self.users[def.0].push(user);
            assert(self@.users =~= old(self)@.users.update(
                def.0 as int,
                old(self)@.users[def.0 as int].push(user),
            ));
            true
        } else {
            false
        }
    }

    /// The number of values.
    pub fn num_values(&self) -> (n: usize)
        ensures
            n == self@.values.len(),
    {
        self.values.len()
    }

    /// The number of instructions.
    pub fn num_instructions(&self) -> (n: usize)
        ensures
            n == self@.users.len(),
    {
        self.users.len()
    }

    /// The value that `id` names, if it names one.
    pub fn value(&self, id: ValueId) -> (value: Option<&Value>)
        ensures
            match value {
                Some(v) => self@.value(id) == Some(v@),
                None => self@.value(id).is_none(),
            },
    {
        if id.0 < self.values.len() {
            Some(&self.values[id.0])
        } else {
            None
        }
    }

    /// Whether some instruction uses the result of `id`.
    pub fn has_users(&self, id: InstructionId) -> (used: bool)
        ensures
            used == self@.has_users(id),
    {
        id.0 < self.users.len() && self.users[id.0].len() > 0
    }
}

} // verus!
