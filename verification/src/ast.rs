use vstd::prelude::*;

use crate::text::{decimal, push_char, push_decimal, push_str};

verus! {

/// A fluent method chain such as `select("*").from("t")`.
#[derive(Debug)]
pub struct Chain {
    inner: Vec<Call>,
}

/// One method call of a chain.
#[derive(Debug)]
pub struct Call {
    method: String,
    arguments: Vec<Value>,
}

/// An argument of a call.
#[derive(Debug)]
pub enum Value {
    Variable(String),
    Int(i32),
    String(String),
    Chain(Box<Chain>),
}

impl Chain {
    /// The calls of the chain, first call first.
    pub closed spec fn calls(self) -> Seq<Call> {
        self.inner@
    }

    pub fn new(inner: Vec<Call>) -> (r: Self)
        ensures
            r.calls() == inner@,
    {
        Chain { inner }
    }

    /// Makes `call` the first call of the chain.
    pub fn put_first(&mut self, call: Call)
        ensures
            final(self).calls() == seq![call] + old(self).calls(),
    {
        self.inner.insert(0, call);
        proof {
            assert(final(self).calls() =~= seq![call] + old(self).calls());
        }
    }
}

impl Call {
    pub closed spec fn method(self) -> Seq<char> {
        self.method@
    }

    pub closed spec fn arguments(self) -> Seq<Value> {
        self.arguments@
    }

    pub fn new(method: String, arguments: Vec<Value>) -> (r: Self)
        ensures
            r.method() == method@,
            r.arguments() == arguments@,
    {
        Call { method, arguments }
    }
}

impl Chain {
    fn deep_clone(&self) -> (r: Self)
        ensures
            render_chain(r) == render_chain(*self),
        decreases *self, 2int,
    {
        let mut inner: Vec<Call> = Vec::new();
        let n = self.inner.len();
        for i in 0..n
            invariant
                n == self.inner@.len(),
                inner@.len() == i,
                render_calls(inner@) == render_calls(self.inner@.take(i as int)),
        {
            proof {
                assert(decreases_to!(*self => self.inner@[i as int]));
            }
            let c = self.inner[i].deep_clone();
            let ghost before = inner@;
            inner.push(c);
            proof {
                assert(inner@.drop_last() =~= before);
                assert(self.inner@.take(i + 1).drop_last() =~= self.inner@.take(i as int));
            }
        }
        proof {
            assert(self.inner@.take(n as int) =~= self.inner@);
        }
        Chain { inner }
    }
}

impl Call {
    fn deep_clone(&self) -> (r: Self)
        ensures
            render_call(r) == render_call(*self),
        decreases *self, 1int,
    {
        let mut arguments: Vec<Value> = Vec::new();
        let n = self.arguments.len();
        for i in 0..n
            invariant
                n == self.arguments@.len(),
                arguments@.len() == i,
                render_values(arguments@) == render_values(self.arguments@.take(i as int)),
        {
            proof {
                assert(decreases_to!(*self => self.arguments@[i as int]));
            }
            let v = self.arguments[i].deep_clone();
            let ghost before = arguments@;
            arguments.push(v);
            proof {
                assert(arguments@.drop_last() =~= before);
                assert(self.arguments@.take(i + 1).drop_last() =~= self.arguments@.take(i as int));
            }
        }
        proof {
            assert(self.arguments@.take(n as int) =~= self.arguments@);
        }
        Call { method: self.method.clone(), arguments }
    }
}

impl Value {
    fn deep_clone(&self) -> (r: Self)
        ensures
            render_value(r) == render_value(*self),
        decreases *self, 0int,
    {
        match self {
            Value::Variable(s) => Value::Variable(s.clone()),
            Value::Int(n) => Value::Int(*n),
            Value::String(s) => Value::String(s.clone()),
            Value::Chain(c) => Value::Chain(Box::new((**c).deep_clone())),
        }
    }
}

impl Clone for Chain {
    /// A deep copy with the same source text.
    fn clone(&self) -> (r: Self)
        ensures
            render_chain(r) == render_chain(*self),
    {
        self.deep_clone()
    }
}

impl Clone for Call {
    /// A deep copy with the same source text.
    fn clone(&self) -> (r: Self)
        ensures
            render_call(r) == render_call(*self),
    {
        self.deep_clone()
    }
}

impl Clone for Value {
    /// A deep copy with the same source text.
    fn clone(&self) -> (r: Self)
        ensures
            render_value(r) == render_value(*self),
    {
        self.deep_clone()
    }
}

/// `chain` as source text: its calls separated by `.`.
pub open spec fn render_chain(c: Chain) -> Seq<char>
    decreases c, 2int,
{
    render_calls(c.calls())
}

/// Calls separated by `.`.
pub open spec fn render_calls(calls: Seq<Call>) -> Seq<char>
    decreases calls, 1int,
{
    if calls.len() == 0 {
        Seq::empty()
    } else if calls.len() == 1 {
        render_call(calls[0])
    } else {
        render_calls(calls.drop_last()) + seq!['.'] + render_call(calls.last())
    }
}

/// `method(arg, arg)`.
pub open spec fn render_call(c: Call) -> Seq<char>
    decreases c, 0int,
{
    c.method() + seq!['('] + render_values(c.arguments()) + seq![')']
}

/// Values separated by `, `.
pub open spec fn render_values(vs: Seq<Value>) -> Seq<char>
    decreases vs, 3int,
{
    if vs.len() == 0 {
        Seq::empty()
    } else if vs.len() == 1 {
        render_value(vs[0])
    } else {
        render_values(vs.drop_last()) + seq![',', ' '] + render_value(vs.last())
    }
}

/// A variable as its name, an integer in decimal, a string in double quotes,
/// a chain as its source text.
pub open spec fn render_value(v: Value) -> Seq<char>
    decreases v, 4int,
{
    match v {
        Value::Variable(s) => s@,
        Value::Int(n) => decimal(n as int),
        Value::String(s) => seq!['"'] + s@ + seq!['"'],
        Value::Chain(c) => render_chain(*c),
    }
}

/// Putting a call first in a chain puts its text, and a `.` when other
/// calls follow, before the chain's text.
pub proof fn lemma_put_first_renders(call: Call, calls: Seq<Call>)
    ensures
        render_calls(seq![call] + calls) == (if calls.len() == 0 {
            render_call(call)
        } else {
            render_call(call) + seq!['.'] + render_calls(calls)
        }),
    decreases calls.len(),
{
    let s = seq![call] + calls;
    if calls.len() == 0 {
        assert(s =~= seq![call]);
    } else if calls.len() == 1 {
        assert(s.drop_last() =~= seq![call]);
        assert(s.last() == calls[0]);
        assert(render_calls(seq![call]) == render_call(call));
        assert(render_calls(calls) == render_call(calls[0]));
        assert(render_calls(s) == render_calls(s.drop_last()) + seq!['.'] + render_call(s.last()));
    } else {
        assert(s.drop_last() =~= seq![call] + calls.drop_last());
        assert(s.last() == calls.last());
        lemma_put_first_renders(call, calls.drop_last());
        assert(render_calls(s) == render_calls(s.drop_last()) + seq!['.'] + render_call(s.last()));
        assert(render_calls(calls) == render_calls(calls.drop_last()) + seq!['.'] + render_call(calls.last()));
        assert(render_calls(s) =~= render_call(call) + seq!['.'] + render_calls(calls));
    }
}

impl Chain {
    /// Appends the chain's source text to `out`.
    pub fn write_to(&self, out: &mut String)
        ensures
            final(out)@ == old(out)@ + render_chain(*self),
        decreases *self, 2int,
    {
        let n = self.inner.len();
        let ghost start = out@;
        for i in 0..n
            invariant
                n == self.inner@.len(),
                out@ == start + render_calls(self.inner@.take(i as int)),
        {
            proof {
                assert(decreases_to!(*self => self.inner@[i as int]));
                assert(self.inner@.take(i + 1).drop_last() =~= self.inner@.take(i as int));
            }
            if i > 0 {
                push_char(out, '.');
            }
            self.inner[i].write_to(out);
            proof {
                if i == 0 {
                    assert(self.inner@.take(0) =~= Seq::<Call>::empty());
                    assert(render_calls(self.inner@.take(0)) =~= Seq::<char>::empty());
                }
                assert(out@ =~= start + render_calls(self.inner@.take(i + 1)));
            }
        }
        proof {
            assert(self.inner@.take(n as int) =~= self.inner@);
        }
    }

    /// The chain's source text: its calls separated by `.`.
    pub fn to_string(&self) -> (s: String)
        ensures
            s@ == render_chain(*self),
    {
        let mut s = String::new();
        self.write_to(&mut s);
        proof {
            assert(s@ =~= render_chain(*self));
        }
        s
    }
}

impl Call {
    /// Appends the call's source text to `out`.
    pub fn write_to(&self, out: &mut String)
        ensures
            final(out)@ == old(out)@ + render_call(*self),
        decreases *self, 1int,
    {
        let ghost start = out@;
        push_str(out, self.method.as_str());
        push_char(out, '(');
        let ghost mid = out@;
        let n = self.arguments.len();
        for i in 0..n
            invariant
                n == self.arguments@.len(),
                out@ == mid + render_values(self.arguments@.take(i as int)),
        {
            proof {
                assert(decreases_to!(*self => self.arguments@[i as int]));
                assert(self.arguments@.take(i + 1).drop_last() =~= self.arguments@.take(i as int));
            }
            if i > 0 {
                push_char(out, ',');
                push_char(out, ' ');
            }
            self.arguments[i].write_to(out);
            proof {
                if i == 0 {
                    assert(self.arguments@.take(0) =~= Seq::<Value>::empty());
                    assert(render_values(self.arguments@.take(0)) =~= Seq::<char>::empty());
                }
                assert(out@ =~= mid + render_values(self.arguments@.take(i + 1)));
            }
        }
        proof {
            assert(self.arguments@.take(n as int) =~= self.arguments@);
        }
        push_char(out, ')');
        proof {
            assert(out@ =~= start + render_call(*self));
        }
    }

    /// `method(arg, arg)`.
    pub fn to_string(&self) -> (s: String)
        ensures
            s@ == render_call(*self),
    {
        let mut s = String::new();
        self.write_to(&mut s);
        proof {
            assert(s@ =~= render_call(*self));
        }
        s
    }
}

impl Value {
    /// Appends the value's source text to `out`.
    pub fn write_to(&self, out: &mut String)
        ensures
            final(out)@ == old(out)@ + render_value(*self),
        decreases *self, 0int,
    {
        match self {
            Value::Variable(s) => push_str(out, s.as_str()),
            Value::Int(n) => push_decimal(out, *n as i64),
            Value::String(s) => {
                let ghost start = out@;
                push_char(out, '"');
                push_str(out, s.as_str());
                push_char(out, '"');
                proof {
                    assert(out@ =~= start + render_value(*self));
                }
            },
            Value::Chain(c) => (**c).write_to(out),
        }
    }

    /// The value's source text.
    pub fn to_string(&self) -> (s: String)
        ensures
            s@ == render_value(*self),
    {
        let mut s = String::new();
        self.write_to(&mut s);
        proof {
            assert(s@ =~= render_value(*self));
        }
        s
    }
}

} // verus!
