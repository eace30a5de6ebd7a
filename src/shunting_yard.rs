use vstd::prelude::*;

use crate::queue::Queue;
use crate::stack::Stack;

verus! {

/// How operators of equal precedence group.
#[derive(Debug, Clone, Copy, PartialEq, Eq, Structural)]
pub enum Assoc {
    /// `a - b - c` is `(a - b) - c`.
    Left,
    /// No grouping is assumed; ties are left for what follows to settle.
    NonAssoc,
    /// `a ^ b ^ c` is `a ^ (b ^ c)`.
    Right,
}

/// Expression tokens implement this trait.
///
/// A token of precedence 0 is an operand; any other precedence marks an
/// operator, whose associativity settles ties with operators of the same
/// precedence. Both answers depend on the token alone.
pub trait TokenProperties {
    /// The precedence of the token. A verified implementation states it
    /// alongside `precedence`; the default makes every token an operand.
    open spec fn prec(&self) -> i32 {
        0
    }

    /// The associativity of the token. A verified implementation states it
    /// alongside `associativity`; the default groups to the left.
    open spec fn assoc(&self) -> Assoc {
        Assoc::Left
    }

    /// Return the precedence of the current token.
    fn precedence(&self) -> (r: i32)
        ensures
            r == self.prec(),
    ;

    /// Return the associativity of the current token.
    fn associativity(&self) -> (r: Assoc)
        ensures
            r == self.assoc(),
    ;
}

/// Whether `top`, the operator on top of the stack, is emitted before an
/// operator of precedence `prec` is pushed over it: it binds tighter, or as
/// tight and groups to the left.
pub open spec fn pops_before<T: TokenProperties>(top: T, prec: i32) -> bool {
    top.prec() > prec || (top.prec() == prec && top.assoc() == Assoc::Left)
}

/// The operators taken off `ops` (top last) before an operator of precedence
/// `prec` is pushed, in the order they leave the stack.
pub open spec fn popped<T: TokenProperties>(ops: Seq<T>, prec: i32) -> Seq<T>
    decreases ops.len(),
{
    if ops.len() > 0 && pops_before(ops.last(), prec) {
        seq![ops.last()] + popped(ops.drop_last(), prec)
    } else {
        Seq::empty()
    }
}

/// What remains of `ops` once `popped(ops, prec)` has been taken off.
pub open spec fn kept<T: TokenProperties>(ops: Seq<T>, prec: i32) -> Seq<T>
    decreases ops.len(),
{
    if ops.len() > 0 && pops_before(ops.last(), prec) {
        kept(ops.drop_last(), prec)
    } else {
        ops
    }
}

/// The output so far and the operator stack (top last) after `tokens` have
/// been read, before the stack is flushed.
pub open spec fn scan<T: TokenProperties>(tokens: Seq<T>) -> (Seq<T>, Seq<T>)
    decreases tokens.len(),
{
    if tokens.len() == 0 {
        (Seq::empty(), Seq::empty())
    } else {
        let (out, ops) = scan(tokens.drop_last());
        let token = tokens.last();
        if token.prec() == 0 {
            (out.push(token), ops)
        } else {
            (out + popped(ops, token.prec()), kept(ops, token.prec()).push(token))
        }
    }
}

/// The postfix form of `tokens`: the scanned output followed by the operators
/// still pending, from the top of the stack down.
pub open spec fn postfix<T: TokenProperties>(tokens: Seq<T>) -> Seq<T> {
    scan(tokens).0 + scan(tokens).1.reverse()
}

/// Whether `t` is an operand, that is of precedence 0.
pub open spec fn is_operand<T: TokenProperties>(t: T) -> bool {
    t.prec() == 0
}

/// The operands of `s`, in the order they stand in it.
pub open spec fn operands<T: TokenProperties>(s: Seq<T>) -> Seq<T> {
    s.filter(|t: T| is_operand(t))
}

/// Taking operators off the stack and keeping the rest splits the stack:
/// what is kept, followed by what was popped in stack order, is the stack.
proof fn lemma_unwind_splits<T: TokenProperties>(ops: Seq<T>, prec: i32)
    ensures
        kept(ops, prec) + popped(ops, prec).reverse() == ops,
    decreases ops.len(),
{
    if ops.len() > 0 && pops_before(ops.last(), prec) {
        let rest = ops.drop_last();
        lemma_unwind_splits(rest, prec);
        assert((seq![ops.last()] + popped(rest, prec)).reverse() =~= popped(rest, prec).reverse().push(
            ops.last(),
        ));
        let left = kept(rest, prec);
        let back = popped(rest, prec).reverse();
        assert(left + back.push(ops.last()) =~= (left + back).push(ops.last()));
        assert(rest.push(ops.last()) =~= ops);
    } else {
        assert(kept(ops, prec) + popped(ops, prec).reverse() =~= ops);
    }
}

/// A sequence of operators has no operands.
proof fn lemma_no_operands<T: TokenProperties>(s: Seq<T>)
    requires
        forall|i: int| 0 <= i < s.len() ==> !is_operand(#[trigger] s[i]),
    ensures
        operands(s) == Seq::<T>::empty(),
    decreases s.len(),
{
    reveal(Seq::filter);
    if s.len() > 0 {
        lemma_no_operands(s.drop_last());
    }
}

/// What holds of the output and the operator stack at every point of a scan:
/// together they hold the tokens read, the stack holds operators only, and
/// the output holds every operand read, in input order.
proof fn lemma_scan<T: TokenProperties>(tokens: Seq<T>)
    ensures
        scan(tokens).0.len() + scan(tokens).1.len() == tokens.len(),
        scan(tokens).0.to_multiset().add(scan(tokens).1.to_multiset()) == tokens.to_multiset(),
        forall|i: int|
            0 <= i < scan(tokens).1.len() ==> !is_operand(#[trigger] scan(tokens).1[i]),
        operands(scan(tokens).0) == operands(tokens),
    decreases tokens.len(),
{
    broadcast use vstd::seq_lib::group_to_multiset_ensures, vstd::multiset::group_multiset_axioms;

    if tokens.len() > 0 {
        let prefix = tokens.drop_last();
        let token = tokens.last();
        let (out, ops) = scan(prefix);
        lemma_scan(prefix);
        assert(prefix.push(token) == tokens);
        reveal(Seq::filter);
        out.lemma_filter_push(token, |t: T| is_operand(t));
        if token.prec() == 0 {
            assert(out.push(token).to_multiset() =~= out.to_multiset().insert(token));
            assert(tokens.to_multiset() =~= prefix.to_multiset().insert(token));
        } else {
            let prec = token.prec();
            let gone = popped(ops, prec);
            let left = kept(ops, prec);
            lemma_unwind_splits(ops, prec);
            assert(forall|i: int| 0 <= i < left.len() ==> left[i] == ops[i]);
            assert(forall|j: int|
                0 <= j < gone.len() ==> #[trigger] gone[j] == ops[ops.len() - 1 - j]);
            lemma_no_operands(gone);
            Seq::filter_distributes_over_add(out, gone, |t: T| is_operand(t));
            assert(operands(out + gone) =~= operands(out));
            gone.lemma_reverse_to_multiset();
            vstd::seq_lib::lemma_multiset_commutative(left, gone.reverse());
            vstd::seq_lib::lemma_multiset_commutative(out, gone);
            assert(left.push(token).to_multiset() =~= left.to_multiset().insert(token));
            assert(tokens.to_multiset() =~= prefix.to_multiset().insert(token));
            assert(forall|i: int|
                0 <= i < left.len() + 1 ==> #[trigger] left.push(token)[i] == if i < left.len() {
                    ops[i]
                } else {
                    token
                });
        }
    } else {
        assert(tokens.to_multiset() =~= vstd::multiset::Multiset::empty());
    }
}

/// The postfix form holds exactly as many tokens as the input.
pub proof fn lemma_postfix_preserves_length<T: TokenProperties>(tokens: Seq<T>)
    ensures
        postfix(tokens).len() == tokens.len(),
{
    lemma_scan(tokens);
}

/// The postfix form is a permutation of the input: every token, as often as
/// it occurs there, and no other.
pub proof fn lemma_postfix_is_permutation<T: TokenProperties>(tokens: Seq<T>)
    ensures
        postfix(tokens).to_multiset() == tokens.to_multiset(),
{
    let (out, ops) = scan(tokens);
    lemma_scan(tokens);
    ops.lemma_reverse_to_multiset();
    vstd::seq_lib::lemma_multiset_commutative(out, ops.reverse());
}

/// Operands leave in the order they came: the operands of the postfix form
/// are those of the input, in input order.
pub proof fn lemma_postfix_keeps_operand_order<T: TokenProperties>(tokens: Seq<T>)
    ensures
        operands(postfix(tokens)) == operands(tokens),
{
    let (out, ops) = scan(tokens);
    lemma_scan(tokens);
    assert(forall|j: int|
        0 <= j < ops.reverse().len() ==> #[trigger] ops.reverse()[j] == ops[ops.len() - 1 - j]);
    lemma_no_operands(ops.reverse());
    Seq::filter_distributes_over_add(out, ops.reverse(), |t: T| is_operand(t));
    assert(operands(out + ops.reverse()) =~= operands(out));
}

/// A lone operand is its own postfix form.
pub proof fn lemma_single_operand<T: TokenProperties>(t: T)
    requires
        is_operand(t),
    ensures
        postfix(seq![t]) == seq![t],
{
    let none = Seq::<T>::empty();
    assert(seq![t].drop_last() =~= none);
    assert(scan(none) == (none, none));
    assert(none.push(t) =~= seq![t]);
    assert(none.reverse() =~= none);
    assert(postfix(seq![t]) =~= seq![t]);
}

/// At the end of the input every operator still on the stack is flushed, in
/// last-in, first-out order, to the tail of the output: the one on top comes
/// first and the one at the bottom ends the output. The stack holds operators
/// only.
pub proof fn lemma_flush_at_end<T: TokenProperties>(tokens: Seq<T>)
    ensures
        forall|i: int|
            0 <= i < scan(tokens).1.len() ==> postfix(tokens)[tokens.len() - 1 - i]
                == #[trigger] scan(tokens).1[i] && !is_operand(scan(tokens).1[i]),
        postfix(tokens).subrange(scan(tokens).0.len() as int, tokens.len() as int)
            == scan(tokens).1.reverse(),
{
    let (out, ops) = scan(tokens);
    lemma_scan(tokens);
    assert(postfix(tokens).subrange(out.len() as int, tokens.len() as int) =~= ops.reverse());
}

/// A shunting-yard conversion over a sequence of infix tokens.
pub struct ShuntingYard<T: TokenProperties> {
    input: Vec<T>,
}

impl<T: TokenProperties> ShuntingYard<T> {
    /// The tokens this conversion reads.
    pub closed spec fn input(&self) -> Seq<T> {
        self.input@
    }

    /// Prepare a conversion of `input`, read from first to last.
    pub fn new(input: Vec<T>) -> (r: Self)
        ensures
            r.input() == input@,
    {
        Self { input }
    }

    /// Run the shunting-yard algorithm on a mathematical expression in infix
    /// notation to produce a result in reverse Polish notation.
    pub fn produce_postfix(self) -> (r: Queue<T>)
        ensures
            r@ == postfix(self.input()),
            r@.len() == self.input().len(),
            r@.to_multiset() == self.input().to_multiset(),
            operands(r@) == operands(self.input()),
    {
        let ghost input = self.input@;
        let mut parsed: Queue<T> = Queue::default();
        let mut operators: Stack<T> = Stack::default();

        for token in it: self.input.into_iter()
            invariant
                it.seq() == input,
                (parsed@, operators@) == scan(input.take(it.index())),
        {
            assert(input.take(it.index() + 1).drop_last() =~= input.take(it.index()));
            // If the precedence is 0 then we have an operand. Operands are
            // always enqueued.
            let prec = token.precedence();
            if prec == 0 {
                parsed.enqueue(token);
            } else {
                let ghost out0 = parsed@;
                let ghost ops0 = operators@;
                // While the operator on top of the stack binds tighter than
                // `token`, or as tight and to the left, move it to the output.
                while !operators.is_empty() && Self::should_stack(operators.peek(), prec)
                    invariant
                        parsed@ + popped(operators@, prec) == out0 + popped(ops0, prec),
                        kept(operators@, prec) == kept(ops0, prec),
                    decreases operators@.len(),
                {
                    let ghost ops = operators@;
                    let top = operators.pop();
                    parsed.enqueue(top);
                    assert(popped(ops, prec) =~= seq![top] + popped(operators@, prec));
                }
                operators.push(token);
            }
        }
        assert(input.take(input.len() as int) =~= input);

        // Enqueue the remaining operators.
        let ghost out1 = parsed@;
        let ghost ops1 = operators@;
        while !operators.is_empty()
            invariant
                parsed@ + operators@.reverse() == out1 + ops1.reverse(),
            decreases operators@.len(),
        {
            let ghost ops = operators@;
            let top = operators.pop();
            assert(ops.reverse() =~= seq![top] + operators@.reverse());
            parsed.enqueue(top);
        }
        proof {
            lemma_postfix_preserves_length(input);
            lemma_postfix_is_permutation(input);
            lemma_postfix_keeps_operand_order(input);
        }
        parsed
    }

    /// Whether `cur_top`, on top of the operator stack, leaves the stack before
    /// an operator of precedence `cur_prec` is pushed.
    pub fn should_stack(cur_top: &T, cur_prec: i32) -> (r: bool)
        ensures
            r == pops_before(*cur_top, cur_prec),
    {
        cur_top.precedence() > cur_prec
            || cur_top.precedence() == cur_prec && cur_top.associativity() == Assoc::Left
    }
}

} // verus!
