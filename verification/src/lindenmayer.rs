//! Lindenmayer systems: grammars that rewrite every symbol of a word at
//! once, pass after pass, and the turtle programs read off the result.

use vstd::prelude::*;
use vstd::arithmetic::power::pow;
use vstd::seq_lib::lemma_flatten_concat;
use crate::turtle::{Turtle, TurtleStep};

verus! {

/// One rewriting pass: every symbol of `word` is replaced by its image under
/// `rule`, left to right, and the images are joined in the same order.
pub open spec fn rewrite<A>(rule: spec_fn(A) -> Seq<A>, word: Seq<A>) -> Seq<A> {
    word.flat_map(rule)
}

/// The word reached from `seed` after `passes` rewriting passes. Each pass
/// works on the whole output of the pass before it.
pub open spec fn expand<A>(seed: Seq<A>, rule: spec_fn(A) -> Seq<A>, passes: nat) -> Seq<A>
    decreases passes,
{
    if passes == 0 {
        seed
    } else {
        rewrite(rule, expand(seed, rule, (passes - 1) as nat))
    }
}

/// Replacing every item of `left + right` by its image gives the images of
/// `left` followed by the images of `right`.
proof fn lemma_flat_map_concat<A, B>(left: Seq<A>, right: Seq<A>, f: spec_fn(A) -> Seq<B>)
    ensures
        (left + right).flat_map(f) == left.flat_map(f) + right.flat_map(f),
{
    assert((left + right).map_values(f) =~= left.map_values(f) + right.map_values(f));
    lemma_flatten_concat(left.map_values(f), right.map_values(f));
}

/// Where no image is empty, the images of a word are together at least as
/// long as the word.
proof fn lemma_flat_map_keeps_length<A, B>(word: Seq<A>, f: spec_fn(A) -> Seq<B>)
    requires
        forall|symbol: A| (#[trigger] f(symbol)).len() >= 1,
    ensures
        word.flat_map(f).len() >= word.len(),
    decreases word.len(),
{
    if word.len() > 0 {
        lemma_flat_map_keeps_length(word.drop_last(), f);
        word.drop_last().lemma_flat_map_push(f, word.last());
        assert(word.drop_last().push(word.last()) =~= word);
    }
}

/// Where no image is longer than `width`, the images of a word are together
/// at most `width` times as long as the word.
proof fn lemma_flat_map_length_bound<A, B>(word: Seq<A>, f: spec_fn(A) -> Seq<B>, width: nat)
    requires
        forall|symbol: A| (#[trigger] f(symbol)).len() <= width,
    ensures
        word.flat_map(f).len() <= word.len() * width,
    decreases word.len(),
{
    if word.len() > 0 {
        lemma_flat_map_length_bound(word.drop_last(), f, width);
        word.drop_last().lemma_flat_map_push(f, word.last());
        assert(word.drop_last().push(word.last()) =~= word);
        assert((word.len() - 1) * width + width == word.len() * width) by (nonlinear_arith);
    } else {
        assert(word.len() * width == 0) by (nonlinear_arith)
            requires
                word.len() == 0,
        ;
    }
}

/// Every item among the images of a word is an item of the image of one of
/// its symbols: where all items of all images satisfy `holds`, so do all
/// items of the joined images.
proof fn lemma_flat_map_items<A, B>(
    word: Seq<A>,
    f: spec_fn(A) -> Seq<B>,
    holds: spec_fn(B) -> bool,
)
    requires
        forall|symbol: A, i: int| 0 <= i < f(symbol).len() ==> holds(#[trigger] f(symbol)[i]),
    ensures
        forall|i: int| 0 <= i < word.flat_map(f).len() ==> holds(#[trigger] word.flat_map(f)[i]),
    decreases word.len(),
{
    if word.len() > 0 {
        lemma_flat_map_items(word.drop_last(), f, holds);
        word.drop_last().lemma_flat_map_push(f, word.last());
        assert(word.drop_last().push(word.last()) =~= word);
        let front = word.drop_last().flat_map(f);
        let back = f(word.last());
        assert(word.flat_map(f) == front + back);
        assert forall|i: int| 0 <= i < word.flat_map(f).len() implies holds(
            #[trigger] word.flat_map(f)[i],
        ) by {
            if i < front.len() {
                assert(word.flat_map(f)[i] == front[i]);
            } else {
                assert(word.flat_map(f)[i] == back[i - front.len()]);
            }
        }
    }
}

/// Without a rewriting pass the word is the starting word, unchanged.
pub proof fn lemma_expand_zero<A>(seed: Seq<A>, rule: spec_fn(A) -> Seq<A>)
    ensures
        expand(seed, rule, 0) == seed,
{
}

/// Expansion is a function of the starting word, of the images of the
/// symbols and of the number of passes, and of nothing else: two grammars
/// that agree on these reach the same word.
pub proof fn lemma_expand_deterministic<A>(
    seed: Seq<A>,
    rule: spec_fn(A) -> Seq<A>,
    other_seed: Seq<A>,
    other_rule: spec_fn(A) -> Seq<A>,
    passes: nat,
)
    requires
        seed == other_seed,
        forall|symbol: A| #[trigger] rule(symbol) == other_rule(symbol),
    ensures
        expand(seed, rule, passes) == expand(other_seed, other_rule, passes),
    decreases passes,
{
    if passes > 0 {
        lemma_expand_deterministic(seed, rule, other_seed, other_rule, (passes - 1) as nat);
        let word = expand(seed, rule, (passes - 1) as nat);
        assert(word.map_values(rule) =~= word.map_values(other_rule));
    }
}

/// One pass rewrites each symbol on its own: the rewriting of two words
/// side by side is the rewriting of the first followed by that of the
/// second.
pub proof fn lemma_rewrite_concat<A>(rule: spec_fn(A) -> Seq<A>, left: Seq<A>, right: Seq<A>)
    ensures
        rewrite(rule, left + right) == rewrite(rule, left) + rewrite(rule, right),
{
    lemma_flat_map_concat(left, right, rule);
}

/// Passes follow one another: `first + then` passes from the starting word
/// are `then` passes from the word that `first` passes reach.
pub proof fn lemma_expand_continues<A>(
    seed: Seq<A>,
    rule: spec_fn(A) -> Seq<A>,
    first: nat,
    then: nat,
)
    ensures
        expand(seed, rule, first + then) == expand(expand(seed, rule, first), rule, then),
    decreases then,
{
    if then > 0 {
        lemma_expand_continues(seed, rule, first, (then - 1) as nat);
        assert((first + then - 1) as nat == first + (then - 1) as nat);
    }
}

/// Where every symbol is replaced by at least one symbol, no pass shortens
/// the word.
pub proof fn lemma_expand_grows<A>(seed: Seq<A>, rule: spec_fn(A) -> Seq<A>, passes: nat)
    requires
        forall|symbol: A| (#[trigger] rule(symbol)).len() >= 1,
    ensures
        expand(seed, rule, passes + 1).len() >= expand(seed, rule, passes).len(),
{
    lemma_flat_map_keeps_length(expand(seed, rule, passes), rule);
}

/// Where every symbol is replaced by at most `branching` symbols, the word
/// after `passes` passes is at most `branching ^ passes` times as long as
/// the starting word.
pub proof fn lemma_expand_length_bound<A>(
    seed: Seq<A>,
    rule: spec_fn(A) -> Seq<A>,
    branching: nat,
    passes: nat,
)
    requires
        forall|symbol: A| (#[trigger] rule(symbol)).len() <= branching,
    ensures
        expand(seed, rule, passes).len() <= seed.len() * pow(branching as int, passes),
    decreases passes,
{
    reveal(pow);
    if passes > 0 {
        let before = expand(seed, rule, (passes - 1) as nat);
        let shorter = pow(branching as int, (passes - 1) as nat);
        lemma_expand_length_bound(seed, rule, branching, (passes - 1) as nat);
        lemma_flat_map_length_bound(before, rule, branching);
        assert(before.len() * branching <= seed.len() * shorter * branching) by (nonlinear_arith)
            requires
                before.len() <= seed.len() * shorter,
                branching >= 0,
        ;
        assert(seed.len() * shorter * branching == seed.len() * (branching * shorter))
            by (nonlinear_arith);
    } else {
        assert(seed.len() * 1 == seed.len()) by (nonlinear_arith);
    }
}

/// A grammar over the symbols of `Alphabet`: a starting word and, for every symbol,
/// the word that replaces it. A symbol that the grammar leaves alone is
/// replaced by itself.
pub trait LindenmayerSystem<Alphabet: Copy>: Sized {
    /// The word before any rewriting.
    spec fn seed() -> Seq<Alphabet>;

    /// The word that replaces `symbol` in one pass. Defined for every symbol.
    spec fn production(symbol: Alphabet) -> Seq<Alphabet>;

    /// Returns the starting word.
    fn initial() -> (lstr: Vec<Alphabet>)
        ensures
            lstr@ == Self::seed(),
    ;

    /// Returns the word that replaces `lstr` in one pass.
    fn apply_rule(lstr: Alphabet) -> (image: Vec<Alphabet>)
        ensures
            image@ == Self::production(lstr),
    ;
}

/// The productions of the grammar `L` as one function.
pub open spec fn rule_of<A: Copy, L: LindenmayerSystem<A>>() -> spec_fn(A) -> Seq<A> {
    |symbol: A| L::production(symbol)
}

/// The word that the grammar `L` reaches after `passes` rewriting passes.
pub open spec fn expansion<A: Copy, L: LindenmayerSystem<A>>(passes: nat) -> Seq<A> {
    expand(L::seed(), rule_of::<A, L>(), passes)
}

/// Returns the word that the grammar `L` reaches after `iterations`
/// rewriting passes. With no pass at all that is the starting word.
pub fn generate<A: Copy, L: LindenmayerSystem<A>>(iterations: u64) -> (lstr: Vec<A>)
    ensures
        lstr@ == expansion::<A, L>(iterations as nat),
        iterations == 0 ==> lstr@ == L::seed(),
{
    let mut lstr: Vec<A> = L::initial();
    let mut pass: u64 = 0;
    while pass < iterations
        invariant
            pass <= iterations,
            lstr@ == expansion::<A, L>(pass as nat),
        decreases iterations - pass,
    {
        lstr = rewrite_word::<A, L>(&lstr);
        pass += 1;
    }
    lstr
}

/// Applies one rewriting pass of the grammar `L` to `word`.
pub fn rewrite_word<A: Copy, L: LindenmayerSystem<A>>(word: &Vec<A>) -> (next: Vec<A>)
    ensures
        next@ == rewrite(rule_of::<A, L>(), word@),
{
    let mut next: Vec<A> = Vec::new();
    let mut at: usize = 0;
    while at < word.len()
        invariant
            at <= word.len(),
            next@ == rewrite(rule_of::<A, L>(), word@.take(at as int)),
        decreases word.len() - at,
    {
        let mut image: Vec<A> = L::apply_rule(word[at]);
        proof {
            word@.lemma_flat_map_take_append(rule_of::<A, L>(), at as int);
        }
        next.append(&mut image);
        at += 1;
    }
    assert(word@.take(word.len() as int) =~= word@);
    next
}

/// What a fractal needs beyond its grammar to be drawn: how deep to
/// expand, where the turtle starts, and what each symbol makes the turtle do.
pub trait LindenmayerSystemDrawingParameters<Alphabet: Copy>: Sized {
    /// The number of rewriting passes of this fractal.
    spec fn depth(&self) -> u64;

    /// The commands that place the turtle before anything is drawn.
    spec fn placement(&self) -> Seq<TurtleStep>;

    /// The commands that `symbol` stands for. They depend on the symbol and
    /// on the fractal alone, not on where in the word the symbol is found.
    spec fn motions(&self, symbol: Alphabet) -> Seq<TurtleStep>;

    /// A symbol never places the turtle: it moves or turns it from where
    /// it is.
    proof fn lemma_motions_are_relative(&self, symbol: Alphabet)
        ensures
            forall|i: int|
                0 <= i < self.motions(symbol).len() ==> (#[trigger] self.motions(
                    symbol,
                )[i]).is_relative(),
    ;

    /// Returns the number of rewriting passes.
    fn iteration(&self) -> (iterations: u64)
        ensures
            iterations == self.depth(),
    ;

    /// Places the turtle where the drawing starts.
    fn initialize_turtle(&self, turtle: &mut Turtle)
        ensures
            final(turtle)@ == old(turtle)@ + self.placement(),
    ;

    /// Gives the turtle the commands that `symbol` stands for.
    fn interpret_symbol(&self, symbol: Alphabet, turtle: &mut Turtle)
        ensures
            final(turtle)@ == old(turtle)@ + self.motions(symbol),
    ;
}

/// The meaning of the symbols of `fractal` as one function.
pub open spec fn motions_of<A: Copy, D: LindenmayerSystemDrawingParameters<A>>(
    fractal: D,
) -> spec_fn(A) -> Seq<TurtleStep> {
    |symbol: A| fractal.motions(symbol)
}

/// The commands that `word` stands for: those of its first symbol, then
/// those of its second, and so on to the last.
pub open spec fn interpretation<A: Copy, D: LindenmayerSystemDrawingParameters<A>>(
    fractal: D,
    word: Seq<A>,
) -> Seq<TurtleStep> {
    word.flat_map(motions_of::<A, D>(fractal))
}

/// The whole turtle program of `fractal`: the placement of the turtle, then
/// the interpretation of the word that the grammar reaches at the
/// fractal's depth.
pub open spec fn path_of<
    A: Copy,
    F: LindenmayerSystem<A> + LindenmayerSystemDrawingParameters<A>,
>(fractal: F) -> Seq<TurtleStep> {
    fractal.placement() + interpretation::<A, F>(
        fractal,
        expansion::<A, F>(fractal.depth() as nat),
    )
}

/// Interpretation keeps the order of the word: the commands of two words
/// side by side are those of the first followed by those of the second.
pub proof fn lemma_interpretation_concat<A: Copy, D: LindenmayerSystemDrawingParameters<A>>(
    fractal: D,
    left: Seq<A>,
    right: Seq<A>,
)
    ensures
        interpretation::<A, D>(fractal, left + right) == interpretation::<A, D>(fractal, left)
            + interpretation::<A, D>(fractal, right),
{
    lemma_flat_map_concat(left, right, motions_of::<A, D>(fractal));
}

/// The turtle is placed once, before anything is drawn: a turtle program
/// begins with the placement of its fractal, and every command after that
/// moves or turns the turtle from where it is.
pub proof fn lemma_path_places_once<
    A: Copy,
    F: LindenmayerSystem<A> + LindenmayerSystemDrawingParameters<A>,
>(fractal: F)
    ensures
        path_of::<A, F>(fractal).len() >= fractal.placement().len(),
        path_of::<A, F>(fractal).take(fractal.placement().len() as int) == fractal.placement(),
        forall|i: int|
            fractal.placement().len() <= i < path_of::<A, F>(fractal).len() ==> (
            #[trigger] path_of::<A, F>(fractal)[i]).is_relative(),
{
    let word = expansion::<A, F>(fractal.depth() as nat);
    let body = interpretation::<A, F>(fractal, word);
    let relative = |step: TurtleStep| step.is_relative();
    assert forall|symbol: A, i: int|
        0 <= i < motions_of::<A, F>(fractal)(symbol).len() implies relative(
        #[trigger] motions_of::<A, F>(fractal)(symbol)[i],
    ) by {
        fractal.lemma_motions_are_relative(symbol);
    }
    lemma_flat_map_items(word, motions_of::<A, F>(fractal), relative);
    assert(path_of::<A, F>(fractal).take(fractal.placement().len() as int)
        =~= fractal.placement());
    assert forall|i: int|
        fractal.placement().len() <= i < path_of::<A, F>(fractal).len() implies (
    #[trigger] path_of::<A, F>(fractal)[i]).is_relative() by {
        assert(path_of::<A, F>(fractal)[i] == body[i - fractal.placement().len()]);
        assert(relative(body[i - fractal.placement().len()]));
    }
}

/// Gives `turtle` the commands that `word` stands for, symbol by symbol
/// and in the order of the word.
pub fn interpret_word<A: Copy, D: LindenmayerSystemDrawingParameters<A>>(
    fractal: &D,
    word: &Vec<A>,
    turtle: &mut Turtle,
)
    ensures
        final(turtle)@ == old(turtle)@ + interpretation::<A, D>(*fractal, word@),
{
    let mut at: usize = 0;
    assert(word@.take(0).flat_map(motions_of::<A, D>(*fractal)) =~= Seq::<TurtleStep>::empty());
    while at < word.len()
        invariant
            at <= word.len(),
            turtle@ == old(turtle)@ + interpretation::<A, D>(*fractal, word@.take(at as int)),
        decreases word.len() - at,
    {
        proof {
            word@.lemma_flat_map_take_append(motions_of::<A, D>(*fractal), at as int);
        }
        fractal.interpret_symbol(word[at], turtle);
        at += 1;
    }
    assert(word@.take(word.len() as int) =~= word@);
}

/// Draws `fractal`: expands its grammar to its depth, places the turtle,
/// then interprets the expanded word from its first symbol to its last.
/// Returns the commands that the turtle received.
pub fn render<A: Copy, F: LindenmayerSystem<A> + LindenmayerSystemDrawingParameters<A>>(
    fractal: &F,
) -> (path: Vec<TurtleStep>)
    ensures
        path@ == path_of::<A, F>(*fractal),
{
    let word: Vec<A> = generate::<A, F>(fractal.iteration());
    let mut turtle: Turtle = Turtle::new();
    fractal.initialize_turtle(&mut turtle);
    interpret_word::<A, F>(fractal, &word, &mut turtle);
    turtle.into_path()
}

} // verus!
