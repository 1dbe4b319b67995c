//! The runtime value: a closed tagged union of numbers, strings, arrays and
//! the three resource handles, together with the coercions and the display
//! rendering that the evaluator uses.
use vstd::prelude::*;

use crate::effects::EffectHandler;
use crate::handles::{App, File, Folder};
use crate::number::is_number_text;
use crate::text::{push_char, spec_trim, trim_str};

verus! {

broadcast use vstd::seq::group_seq_axioms, vstd::std_specs::vec::group_vec_axioms;

/// A runtime value. Numbers hold the 64 bits of their floating-point
/// representation; the handler interprets them.
#[derive(Debug, PartialEq)]
pub enum Value {
    Number(u64),
    Str(String),
    Array(Vec<Value>),
    File(File),
    Folder(Folder),
    App(App),
}

/// The mathematical shape of a [`Value`]: text as character sequences,
/// arrays as sequences of shapes, handles as their path or name.
pub enum ValueV {
    Number(u64),
    Str(Seq<char>),
    Array(Seq<ValueV>),
    File(Seq<char>),
    Folder(Seq<char>),
    App(Seq<char>),
}

impl Value {
    /// The mathematical shape of the value; see [`ValueV`].
    pub open spec fn shape(&self) -> ValueV
        decreases self,
        via Self::shape_decreases
    {
        match self {
            Value::Number(b) => ValueV::Number(*b),
            Value::Str(s) => ValueV::Str(s@),
            Value::Array(v) => ValueV::Array(shapes_of(v@)),
            Value::File(f) => ValueV::File(f.path@),
            Value::Folder(f) => ValueV::Folder(f.path@),
            Value::App(a) => ValueV::App(a.name@),
        }
    }

    #[via_fn]
    proof fn shape_decreases(&self) {
        match self {
            Value::Array(v) => {
                assert(decreases_to!(*self => self->Array_0));
                assert(decreases_to!(self->Array_0 => v@));
            },
            _ => {},
        }
    }
}

/// The shapes of a sequence of values, element by element.
pub open spec fn shapes_of(s: Seq<Value>) -> Seq<ValueV>
    decreases s,
{
    if s.len() == 0 {
        Seq::empty()
    } else {
        shapes_of(s.drop_last()).push(s.last().shape())
    }
}

/// `shapes_of` maps [`Value::shape`] over the sequence.
pub proof fn lemma_shapes_of_index(s: Seq<Value>)
    ensures
        shapes_of(s).len() == s.len(),
        forall|i: int| 0 <= i < s.len() ==> shapes_of(s)[i] == s[i].shape(),
    decreases s.len(),
{
    if s.len() > 0 {
        lemma_shapes_of_index(s.drop_last());
    }
}

impl DeepView for Value {
    type V = ValueV;

    open spec fn deep_view(&self) -> ValueV {
        self.shape()
    }
}

/// Whether a value can be coerced to text: numbers stringify, files and
/// folders yield their path; apps and arrays do not coerce.
pub open spec fn text_coercible(v: ValueV) -> bool {
    match v {
        ValueV::Number(_) => true,
        ValueV::Str(_) => true,
        ValueV::File(_) => true,
        ValueV::Folder(_) => true,
        ValueV::App(_) => false,
        ValueV::Array(_) => false,
    }
}

/// Whether a value can be coerced to a number: a number itself, or text
/// whose trimmed form matches the number grammar.
pub open spec fn number_coercible(v: ValueV) -> bool {
    match v {
        ValueV::Number(_) => true,
        ValueV::Str(s) => is_number_text(spec_trim(s)),
        ValueV::File(p) => is_number_text(spec_trim(p)),
        ValueV::Folder(p) => is_number_text(spec_trim(p)),
        ValueV::App(_) => false,
        ValueV::Array(_) => false,
    }
}

impl Value {
    /// A structural copy of the value.
    pub fn duplicate(&self) -> (r: Value)
        ensures
            r.deep_view() == self.deep_view(),
        decreases self,
    {
        match self {
            Value::Number(b) => Value::Number(*b),
            Value::Str(s) => Value::Str(s.clone()),
            Value::File(f) => Value::File(File { path: f.path.clone() }),
            Value::Folder(f) => Value::Folder(Folder { path: f.path.clone() }),
            Value::App(a) => Value::App(App { name: a.name.clone() }),
            Value::Array(v) => {
                let mut out: Vec<Value> = Vec::new();
                let mut i: usize = 0;
                while i < v.len()
                    invariant
                        self is Array,
                        self->Array_0 == *v,
                        0 <= i <= v@.len(),
                        out@.len() == i,
                        forall|j: int|
                            0 <= j < i ==> (#[trigger] out@[j]).deep_view() == v@[j].deep_view(),
                    decreases v@.len() - i,
                {
                    proof {
                        assert(decreases_to!(*self => self->Array_0));
                        assert(self->Array_0 == *v);
                        assert(decreases_to!(*v => v@));
                        assert(decreases_to!(v@ => v@[i as int]));
                    }
                    out.push(v[i].duplicate());
                    i += 1;
                }
                proof {
                    lemma_shapes_of_index(out@);
                    lemma_shapes_of_index(v@);
                    assert(shapes_of(out@) =~= shapes_of(v@));
                }
                Value::Array(out)
            },
        }
    }

    /// Coerces the value to text: a string gives its content, a number its
    /// handler-rendered decimal text, a file or folder its path; arrays and
    /// apps give nothing.
    pub fn get_string<H: EffectHandler>(&self, h: &mut H) -> (r: Option<String>)
        ensures
            r is Some <==> text_coercible(self.deep_view()),
            (self.deep_view() matches ValueV::Str(s) ==> r matches Option::Some(t) && t@ == s),
            (self.deep_view() matches ValueV::File(p) ==> r matches Option::Some(t) && t@ == p),
            (self.deep_view() matches ValueV::Folder(p) ==> r matches Option::Some(t) && t@ == p),
    {
        match self {
            Value::Str(s) => Option::Some(s.clone()),
            Value::Number(b) => Option::Some(h.num_to_text(*b)),
            Value::File(f) => Option::Some(f.path.clone()),
            Value::Folder(f) => Option::Some(f.path.clone()),
            Value::App(_) => Option::None,
            Value::Array(_) => Option::None,
        }
    }

    /// Coerces the value to a number: a number gives its own bits; text
    /// that matches the number grammar after trimming gives the bits the
    /// handler reads from it; anything else gives nothing.
    pub fn get_number<H: EffectHandler>(&self, h: &mut H) -> (r: Option<u64>)
        ensures
            r is Some <==> number_coercible(self.deep_view()),
            (self.deep_view() matches ValueV::Number(b) ==> r == Option::Some(b)),
    {
        match self {
            Value::Number(b) => Option::Some(*b),
            Value::Str(s) => {
                let t = trim_str(s.as_str());
                if crate::number::is_number_token(t) {
                    Option::Some(h.num_from_text(t))
                } else {
                    Option::None
                }
            },
            Value::File(f) => {
                let t = trim_str(f.path.as_str());
                if crate::number::is_number_token(t) {
                    Option::Some(h.num_from_text(t))
                } else {
                    Option::None
                }
            },
            Value::Folder(f) => {
                let t = trim_str(f.path.as_str());
                if crate::number::is_number_token(t) {
                    Option::Some(h.num_from_text(t))
                } else {
                    Option::None
                }
            },
            Value::App(_) => Option::None,
            Value::Array(_) => Option::None,
        }
    }
}

/// Space-joins a sequence of renderings.
pub open spec fn join_space(parts: Seq<Seq<char>>) -> Seq<char>
    decreases parts.len(),
{
    if parts.len() == 0 {
        Seq::empty()
    } else if parts.len() == 1 {
        parts[0]
    } else {
        join_space(parts.drop_last()) + seq![' '] + parts.last()
    }
}

/// How a value may be displayed: strings are quoted, handles are wrapped in
/// their kind's name, arrays are bracketed space-joined lists of their
/// elements' own renderings; a number renders as whatever decimal text the
/// handler gives its bits.
pub open spec fn renders(v: ValueV, out: Seq<char>) -> bool
    decreases v,
{
    match v {
        ValueV::Number(_) => true,
        ValueV::Str(s) => out == seq!['"'] + s + seq!['"'],
        ValueV::File(p) => out == "File( "@ + p + " )"@,
        ValueV::Folder(p) => out == "Folder( "@ + p + " )"@,
        ValueV::App(n) => out == "App( "@ + n + " )"@,
        ValueV::Array(a) => exists|parts: Seq<Seq<char>>|
            parts.len() == a.len() && (forall|i: int|
                0 <= i < a.len() ==> renders(a[i], #[trigger] parts[i])) && out == seq!['[']
                + join_space(parts) + seq![']'],
    }
}

proof fn lemma_join_space_push(parts: Seq<Seq<char>>, p: Seq<char>)
    ensures
        parts.len() == 0 ==> join_space(parts.push(p)) == p,
        parts.len() > 0 ==> join_space(parts.push(p)) == join_space(parts) + seq![' '] + p,
{
    let w = parts.push(p);
    assert(w.drop_last() =~= parts);
    assert(w.last() == p);
    if parts.len() == 0 {
        assert(join_space(w) == w[0]);
    }
}

impl Value {
    /// Renders the value for display.
    pub fn display<H: EffectHandler>(&self, h: &mut H) -> (r: String)
        ensures
            renders(self.deep_view(), r@),
        decreases self,
    {
        match self {
            Value::Number(b) => h.num_to_text(*b),
            Value::Str(s) => {
                let mut out = String::new();
                push_char(&mut out, '"');
                out.append(s.as_str());
                push_char(&mut out, '"');
                proof {
                    assert(out@ =~= seq!['"'] + s@ + seq!['"']);
                }
                out
            },
            Value::File(f) => {
                let mut out = String::from_str("File( ");
                out.append(f.path.as_str());
                out.append(" )");
                proof {
                    assert(out@ =~= "File( "@ + f.path@ + " )"@);
                }
                out
            },
            Value::Folder(f) => {
                let mut out = String::from_str("Folder( ");
                out.append(f.path.as_str());
                out.append(" )");
                proof {
                    assert(out@ =~= "Folder( "@ + f.path@ + " )"@);
                }
                out
            },
            Value::App(a) => {
                let mut out = String::from_str("App( ");
                out.append(a.name.as_str());
                out.append(" )");
                proof {
                    assert(out@ =~= "App( "@ + a.name@ + " )"@);
                }
                out
            },
            Value::Array(v) => {
                let ghost a = shapes_of(v@);
                proof {
                    lemma_shapes_of_index(v@);
                }
                let mut out = String::new();
                push_char(&mut out, '[');
                let ghost mut parts = Seq::<Seq<char>>::empty();
                let mut i: usize = 0;
                proof {
                    assert(out@ =~= seq!['['] + join_space(parts));
                }
                while i < v.len()
                    invariant
                        self is Array,
                        self->Array_0 == *v,
                        0 <= i <= v@.len(),
                        a == shapes_of(v@),
                        a.len() == v@.len(),
                        forall|k: int| 0 <= k < v@.len() ==> a[k] == v@[k].shape(),
                        parts.len() == i,
                        forall|j: int| 0 <= j < i ==> renders(a[j], #[trigger] parts[j]),
                        out@ == seq!['['] + join_space(parts),
                    decreases v@.len() - i,
                {
                    if i > 0 {
                        push_char(&mut out, ' ');
                    }
                    proof {
                        assert(decreases_to!(*self => self->Array_0));
                        assert(self->Array_0 == *v);
                        assert(decreases_to!(*v => v@));
                        assert(decreases_to!(v@ => v@[i as int]));
                    }
                    let piece = v[i].display(h);
                    out.append(piece.as_str());
                    proof {
                        lemma_join_space_push(parts, piece@);
                        if i == 0 {
                            assert(out@ =~= seq!['['] + join_space(parts.push(piece@)));
                        } else {
                            assert(out@ =~= seq!['['] + join_space(parts.push(piece@)));
                        }
                        parts = parts.push(piece@);
                        assert(a[i as int] == v@[i as int].deep_view());
                    }
                    i += 1;
                }
                push_char(&mut out, ']');
                proof {
                    assert(out@ =~= seq!['['] + join_space(parts) + seq![']']);
                    assert(renders(ValueV::Array(a), out@));
                }
                out
            },
        }
    }
}

} // verus!
