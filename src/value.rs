use vstd::prelude::*;

verus! {

/// The mathematical value a parser produces.
pub enum Val {
    Unit,
    Char(char),
    Bool(bool),
    Text(Seq<char>),
    Pair(Box<Val>, Box<Val>),
    List(Seq<Val>),
    /// The `u8` selects a variant of a sum type; the payload is its contents.
    Tag(u8, Box<Val>),
}

/// The runtime form of a parsed value.
pub enum Value {
    Unit,
    Char(char),
    Bool(bool),
    Text(String),
    Pair(Box<Value>, Box<Value>),
    List(Vec<Value>),
    Tag(u8, Box<Value>),
}

/// The models of a sequence of runtime values, element by element.
pub open spec fn views(vs: Seq<Value>) -> Seq<Val>
    decreases vs,
{
    if vs.len() == 0 {
        Seq::empty()
    } else {
        views(vs.subrange(0, vs.len() - 1)).push(vs[vs.len() - 1].model())
    }
}

impl Value {
    pub open spec fn model(&self) -> Val
        decreases self,
    {
        match self {
            Value::Unit => Val::Unit,
            Value::Char(c) => Val::Char(*c),
            Value::Bool(b) => Val::Bool(*b),
            Value::Text(s) => Val::Text(s@),
            Value::Pair(a, b) => Val::Pair(Box::new(a.model()), Box::new(b.model())),
            Value::List(vs) => Val::List(views(vs@)),
            Value::Tag(t, v) => Val::Tag(*t, Box::new(v.model())),
        }
    }
}

/// The number of nodes in the value trees of a sequence.
pub open spec fn sizes(vs: Seq<Value>) -> nat
    decreases vs,
{
    if vs.len() == 0 {
        0
    } else {
        sizes(vs.subrange(0, vs.len() - 1)) + vs[vs.len() - 1].size()
    }
}

impl Value {
    /// The number of nodes in the value's tree.
    pub open spec fn size(&self) -> nat
        decreases self,
    {
        match self {
            Value::Pair(a, b) => 1 + a.size() + b.size(),
            Value::List(vs) => 1 + sizes(vs@),
            Value::Tag(_, v) => 1 + v.size(),
            _ => 1,
        }
    }
}

pub proof fn lemma_sizes_bound(vs: Seq<Value>, i: int)
    requires
        0 <= i < vs.len(),
    ensures
        vs[i].size() <= sizes(vs),
    decreases vs.len(),
{
    if i < vs.len() - 1 {
        lemma_sizes_bound(vs.subrange(0, vs.len() - 1), i);
    }
}

impl View for Value {
    type V = Val;

    open spec fn view(&self) -> Val {
        self.model()
    }
}

pub proof fn lemma_views_len(vs: Seq<Value>)
    ensures
        views(vs).len() == vs.len(),
        forall|i: int| 0 <= i < vs.len() ==> #[trigger] views(vs)[i] == vs[i]@,
    decreases vs.len(),
{
    if vs.len() > 0 {
        lemma_views_len(vs.subrange(0, vs.len() - 1));
    }
}

} // verus!

verus! {

/// Relies on `String::push`: the character is appended at the end.
#[verifier::external_body]
pub(crate) fn push_char(s: &mut String, c: char)
    ensures
        final(s)@ == old(s)@.push(c),
{
    s.push(c);
}

pub fn char_value(c: char) -> (v: Value)
    ensures
        v@ == Val::Char(c),
{
    Value::Char(c)
}

impl Value {
    /// A copy with the same model.
    pub fn duplicate(&self) -> (r: Value)
        ensures
            r@ == self@,
        decreases self.size(),
    {
        match self {
            Value::Unit => Value::Unit,
            Value::Char(c) => Value::Char(*c),
            Value::Bool(b) => Value::Bool(*b),
            Value::Text(s) => Value::Text(s.clone()),
            Value::Pair(a, b) => Value::Pair(Box::new(a.duplicate()), Box::new(b.duplicate())),
            Value::Tag(t, v) => Value::Tag(*t, Box::new(v.duplicate())),
            Value::List(vs) => {
                let mut out: Vec<Value> = Vec::new();
                let mut i: usize = 0;
                while i < vs.len()
                    invariant
                        *self == Value::List(*vs),
                        i <= vs.len(),
                        out.len() == i,
                        forall|j: int| 0 <= j < i ==> #[trigger] out@[j]@ == vs@[j]@,
                    decreases vs.len() - i,
                {
                    proof {
                        lemma_sizes_bound(vs@, i as int);

                    }
                    out.push(vs[i].duplicate());
                    i = i + 1;
                }
                proof {
                    lemma_views_len(out@);
                    lemma_views_len(vs@);
                    assert(views(out@) =~= views(vs@));
                }
                Value::List(out)
            },
        }
    }
}

} // verus!
