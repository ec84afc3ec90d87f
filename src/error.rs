//! The error type shared by byte vectors and codecs.
use vstd::prelude::*;

verus! {

/// Joins context labels with `/`, outermost first.
pub open spec fn join_context(ctx: Seq<Seq<char>>) -> Seq<char>
    decreases ctx.len(),
{
    if ctx.len() == 0 {
        Seq::empty()
    } else if ctx.len() == 1 {
        ctx[0]
    } else {
        join_context(ctx.drop_last()) + seq!['/'] + ctx.last()
    }
}

/// The rendered message of an error whose description is `description` and whose context
/// stack is `context`: `ctx0/ctx1/.../ctxN: description`, or the bare description.
pub open spec fn render(description: Seq<char>, context: Seq<Seq<char>>) -> Seq<char> {
    if context.len() == 0 {
        description
    } else {
        join_context(context) + seq![':', ' '] + description
    }
}

/// A description plus a stack of context labels, the outermost label first.
#[derive(Debug)]
pub struct Error {
    /// The error message.
    pub description: String,
    /// The stack of context labels, outermost first.
    context: Vec<String>,
}

/// What an error holds: its description and its context labels, outermost first.
pub type ErrorModel = (Seq<char>, Seq<Seq<char>>);

impl View for Error {
    type V = ErrorModel;

    closed spec fn view(&self) -> ErrorModel {
        (self.description@, self.context@.map_values(|s: String| s@))
    }
}

/// An error with a description and no context.
pub open spec fn plain_error(description: Seq<char>) -> ErrorModel {
    (description, Seq::empty())
}

/// `e` with `label` pushed as its new outermost context.
pub open spec fn with_label(e: ErrorModel, label: Seq<char>) -> ErrorModel {
    (e.0, seq![label] + e.1)
}

impl Error {
    /// An error with the given description and an empty context stack.
    pub fn new(description: String) -> (r: Error)
        ensures
            r@ == plain_error(description@),
    {
        let r = Error { description, context: Vec::new() };
        assert(r@.1 =~= Seq::<Seq<char>>::empty());
        r
    }

    /// The human-readable message, with the context path in front when there is one.
    pub fn message(&self) -> (r: String)
        ensures
            r@ == render(self@.0, self@.1),
    {
        if self.context.len() == 0 {
            self.description.clone()
        } else {
            let ghost ctx = self@.1;
            let mut acc = String::new();
            let mut i: usize = 0;
            proof {
                reveal_strlit("/");
                reveal_strlit(": ");
            }
            while i < self.context.len()
                invariant
                    i <= self.context@.len(),
                    ctx == self@.1,
                    ctx.len() == self.context@.len(),
                    0 < ctx.len(),
                    forall|j: int| 0 <= j < ctx.len() ==> ctx[j] == (#[trigger] self.context@[j])@,
                    acc@ == join_context(ctx.take(i as int)),
                decreases self.context@.len() - i,
            {
                proof {
                    reveal_strlit("/");
                }
                let ghost prev = acc@;
                if i > 0 {
                    acc.append("/");
                }
                let ghost mid = acc@;
                acc.append(self.context[i].as_str());
                assert(acc@ == mid + ctx[i as int]);
                proof {
                    let t = ctx.take(i as int + 1);
                    assert(t.drop_last() =~= ctx.take(i as int));
                    assert(t.last() == ctx[i as int]);
                    if i == 0 {
                        assert(t.len() == 1);
                        assert(acc@ =~= t[0]);
                    } else {
                        assert(mid =~= prev + seq!['/']);
                    }
                }
                i = i + 1;
            }
            assert(ctx.take(ctx.len() as int) =~= ctx);
            acc.append(": ");
            acc.append(self.description.as_str());
            acc
        }
    }

    /// A copy of this error with `context` pushed as the new outermost label.
    pub fn push_context(&self, context: &str) -> (r: Error)
        ensures
            r@ == with_label(self@, context@),
    {
        let mut labels: Vec<String> = Vec::new();
        labels.push(String::from_str(context));
        let mut i: usize = 0;
        while i < self.context.len()
            invariant
                i <= self.context@.len(),
                labels@.len() == i + 1,
                labels@[0]@ == context@,
                forall|j: int| 0 <= j < i ==> (#[trigger] labels@[j + 1])@ == self.context@[j]@,
            decreases self.context@.len() - i,
        {
            labels.push(self.context[i].clone());
            i = i + 1;
        }
        let r = Error { description: self.description.clone(), context: labels };
        assert forall|j: int| 0 <= j < r@.1.len() implies r@.1[j] == (seq![context@] + self@.1)[j] by {
            if j > 0 {
                assert(labels@[(j - 1) + 1]@ == self.context@[j - 1]@);
            }
        }
        assert(r@.1 =~= seq![context@] + self@.1);
        r
    }
}

} // verus!
