use vstd::prelude::*;
use std::rc::Rc;
use crate::objects::StringObject;
use crate::value::{Val, Value};
use crate::vm::RuntimeError;

verus! {

/// The operand stack of the machine; its last element is the top.
#[derive(Debug)]
pub struct Stack {
    values: Vec<Value>,
}

impl View for Stack {
    type V = Seq<Val>;

    closed spec fn view(&self) -> Seq<Val> {
        self.values@.map_values(|v: Value| v@)
    }
}

impl Stack {
    pub fn new() -> (r: Stack)
        ensures
            r@ == Seq::<Val>::empty(),
    {
        let r = Stack { values: Vec::new() };
        proof {
            assert(r@ =~= Seq::<Val>::empty());
        }
        r
    }

    pub fn push(&mut self, value: Value)
        ensures
            final(self)@ == old(self)@.push(value@),
    {
        self.values.push(value);
        proof {
            assert(self@ =~= old(self)@.push(value@));
        }
    }

    /// Removes and returns the top value; on an empty stack, StackUnderflow.
    pub fn pop(&mut self) -> (r: Result<Value, RuntimeError>)
        ensures
            old(self)@.len() == 0 ==> r == Err::<Value, RuntimeError>(RuntimeError::StackUnderflow)
                && final(self)@ == old(self)@,
            old(self)@.len() > 0 ==> r is Ok && r->Ok_0@ == old(self)@.last() && final(self)@
                == old(self)@.drop_last(),
    {
        match self.values.pop() {
            Some(v) => {
                proof {
                    assert(self@ =~= old(self)@.drop_last());
                }
                Ok(v)
            },
            None => Err(RuntimeError::StackUnderflow),
        }
    }

    /// Removes the top value and returns it as a number. The value is gone
    /// even when it is no number (TypeMismatch).
    pub fn pop_number(&mut self) -> (r: Result<u64, RuntimeError>)
        ensures
            old(self)@.len() == 0 ==> r == Err::<u64, RuntimeError>(RuntimeError::StackUnderflow)
                && final(self)@ == old(self)@,
            old(self)@.len() > 0 ==> final(self)@ == old(self)@.drop_last(),
            old(self)@.len() > 0 && old(self)@.last() is Number ==> r == Ok::<u64, RuntimeError>(
                old(self)@.last()->Number_0,
            ),
            old(self)@.len() > 0 && !(old(self)@.last() is Number) ==> r == Err::<u64, RuntimeError>(
                RuntimeError::TypeMismatch,
            ),
    {
        match self.pop() {
            Ok(Value::Number(n)) => Ok(n),
            Ok(_) => Err(RuntimeError::TypeMismatch),
            Err(e) => Err(e),
        }
    }

    /// Removes the top value and returns it as text. The value is gone even
    /// when it is no text (TypeMismatch).
    pub fn pop_string(&mut self) -> (r: Result<Rc<StringObject>, RuntimeError>)
        ensures
            old(self)@.len() == 0 ==> r == Err::<Rc<StringObject>, RuntimeError>(
                RuntimeError::StackUnderflow,
            ) && final(self)@ == old(self)@,
            old(self)@.len() > 0 ==> final(self)@ == old(self)@.drop_last(),
            old(self)@.len() > 0 && old(self)@.last() is Str ==> r is Ok && r->Ok_0.value@ == old(
                self,
            )@.last()->Str_0,
            old(self)@.len() > 0 && !(old(self)@.last() is Str) ==> r == Err::<
                Rc<StringObject>,
                RuntimeError,
            >(RuntimeError::TypeMismatch),
    {
        match self.pop() {
            Ok(Value::String(s)) => Ok(s),
            Ok(_) => Err(RuntimeError::TypeMismatch),
            Err(e) => Err(e),
        }
    }

    /// The top value, left in place; on an empty stack, StackUnderflow.
    pub fn peek(&self) -> (r: Result<&Value, RuntimeError>)
        ensures
            self@.len() == 0 ==> r is Err && r->Err_0 == RuntimeError::StackUnderflow,
            self@.len() > 0 ==> r is Ok && r->Ok_0@ == self@.last(),
    {
        if self.values.len() == 0 {
            Err(RuntimeError::StackUnderflow)
        } else {
            Ok(&self.values[self.values.len() - 1])
        }
    }

    pub fn contents(&self) -> (r: &Vec<Value>)
        ensures
            r@.map_values(|v: Value| v@) == self@,
    {
        &self.values
    }
}

} // verus!
