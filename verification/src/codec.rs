use vstd::prelude::*;

use crate::recipe::RecipeView;

verus! {

// ---------------------------------------------------------------------------
// The persisted format, as mathematics.
//
// A collection is written as a JSON array of objects, each with exactly the
// five fields `id`, `name`, `ingredients`, `instructions` and `servings`, in
// that order, with no whitespace: the compact form
// `[{"id":1,"name":"a","ingredients":["b"],"instructions":["c"],"servings":2}]`.
// Numbers are canonical decimals; strings escape the quote, the backslash and
// the three common control characters, and carry every other character
// literally. The parser below accepts exactly this canonical form.
// ---------------------------------------------------------------------------

pub open spec fn is_digit(c: char) -> bool {
    c == '0' || c == '1' || c == '2' || c == '3' || c == '4' || c == '5' || c == '6' || c == '7'
        || c == '8' || c == '9'
}

pub open spec fn digit_char(n: int) -> char {
    if n == 0 { '0' }
    else if n == 1 { '1' }
    else if n == 2 { '2' }
    else if n == 3 { '3' }
    else if n == 4 { '4' }
    else if n == 5 { '5' }
    else if n == 6 { '6' }
    else if n == 7 { '7' }
    else if n == 8 { '8' }
    else { '9' }
}

pub open spec fn digit_val(c: char) -> int {
    if c == '0' { 0 }
    else if c == '1' { 1 }
    else if c == '2' { 2 }
    else if c == '3' { 3 }
    else if c == '4' { 4 }
    else if c == '5' { 5 }
    else if c == '6' { 6 }
    else if c == '7' { 7 }
    else if c == '8' { 8 }
    else { 9 }
}

/// Canonical decimal digits of `n`, most significant first, no leading zeros.
pub open spec fn dec_of(n: nat) -> Seq<char>
    decreases n,
{
    if n < 10 {
        seq![digit_char(n as int)]
    } else {
        dec_of(n / 10).push(digit_char((n % 10) as int))
    }
}

/// How one character is written inside a quoted string.
pub open spec fn esc_char(c: char) -> Seq<char> {
    if c == '"' { seq!['\\', '"'] }
    else if c == '\\' { seq!['\\', '\\'] }
    else if c == '\n' { seq!['\\', 'n'] }
    else if c == '\r' { seq!['\\', 'r'] }
    else if c == '\t' { seq!['\\', 't'] }
    else { seq![c] }
}

pub open spec fn esc_str(s: Seq<char>) -> Seq<char>
    decreases s.len(),
{
    if s.len() == 0 {
        Seq::empty()
    } else {
        esc_char(s[0]) + esc_str(s.skip(1))
    }
}

/// A quoted, escaped string.
pub open spec fn json_str(s: Seq<char>) -> Seq<char> {
    seq!['"'] + esc_str(s) + seq!['"']
}

/// The comma-separated items of an array of strings.
pub open spec fn json_str_list(l: Seq<Seq<char>>) -> Seq<char>
    decreases l.len(),
{
    if l.len() == 0 {
        Seq::empty()
    } else if l.len() == 1 {
        json_str(l[0])
    } else {
        json_str(l[0]) + seq![','] + json_str_list(l.skip(1))
    }
}

/// A bracketed array of strings.
pub open spec fn json_str_arr(l: Seq<Seq<char>>) -> Seq<char> {
    seq!['['] + json_str_list(l) + seq![']']
}

pub open spec fn lit_obj_id() -> Seq<char> {
    seq!['{', '"', 'i', 'd', '"', ':']
}

pub open spec fn lit_name() -> Seq<char> {
    seq![',', '"', 'n', 'a', 'm', 'e', '"', ':']
}

pub open spec fn lit_ingredients() -> Seq<char> {
    seq![',', '"', 'i', 'n', 'g', 'r', 'e', 'd', 'i', 'e', 'n', 't', 's', '"', ':']
}

pub open spec fn lit_instructions() -> Seq<char> {
    seq![',', '"', 'i', 'n', 's', 't', 'r', 'u', 'c', 't', 'i', 'o', 'n', 's', '"', ':']
}

pub open spec fn lit_servings() -> Seq<char> {
    seq![',', '"', 's', 'e', 'r', 'v', 'i', 'n', 'g', 's', '"', ':']
}

/// One recipe as a JSON object.
pub open spec fn json_recipe(r: RecipeView) -> Seq<char> {
    lit_obj_id() + dec_of(r.id as nat) + lit_name() + json_str(r.name) + lit_ingredients()
        + json_str_arr(r.ingredients) + lit_instructions() + json_str_arr(r.instructions)
        + lit_servings() + dec_of(r.servings as nat) + seq!['}']
}

/// The comma-separated items of the top-level array.
pub open spec fn json_recipe_list(rs: Seq<RecipeView>) -> Seq<char>
    decreases rs.len(),
{
    if rs.len() == 0 {
        Seq::empty()
    } else if rs.len() == 1 {
        json_recipe(rs[0])
    } else {
        json_recipe(rs[0]) + seq![','] + json_recipe_list(rs.skip(1))
    }
}

/// The whole collection as a JSON array.
pub open spec fn json_of(rs: Seq<RecipeView>) -> Seq<char> {
    seq!['['] + json_recipe_list(rs) + seq![']']
}

// ---------------------------------------------------------------------------
// The parser, as mathematics. Each function consumes a prefix of its input
// and returns the parsed value together with the remaining suffix, or `None`
// when the input does not start with the expected shape.
// ---------------------------------------------------------------------------

/// Consumes the exact literal `lit`.
pub open spec fn p_lit(s: Seq<char>, lit: Seq<char>) -> Option<Seq<char>> {
    if lit.len() <= s.len() && s.take(lit.len() as int) == lit {
        Some(s.skip(lit.len() as int))
    } else {
        None
    }
}

/// The character an escape code stands for.
pub open spec fn unesc_code(c: char) -> Option<char> {
    if c == '"' { Some('"') }
    else if c == '\\' { Some('\\') }
    else if c == 'n' { Some('\n') }
    else if c == 'r' { Some('\r') }
    else if c == 't' { Some('\t') }
    else { None }
}

/// The content of a quoted string after its opening quote, up to and
/// including the closing quote.
pub open spec fn p_str_body(s: Seq<char>) -> Option<(Seq<char>, Seq<char>)>
    decreases s.len(),
{
    if s.len() == 0 {
        None
    } else if s[0] == '"' {
        Some((Seq::empty(), s.skip(1)))
    } else if s[0] == '\\' {
        if s.len() < 2 {
            None
        } else {
            match unesc_code(s[1]) {
                Some(c) => match p_str_body(s.skip(2)) {
                    Some(tr) => Some((seq![c] + tr.0, tr.1)),
                    None => None,
                },
                None => None,
            }
        }
    } else {
        match p_str_body(s.skip(1)) {
            Some(tr) => Some((seq![s[0]] + tr.0, tr.1)),
            None => None,
        }
    }
}

/// A quoted string.
pub open spec fn p_string(s: Seq<char>) -> Option<(Seq<char>, Seq<char>)> {
    if s.len() >= 1 && s[0] == '"' {
        p_str_body(s.skip(1))
    } else {
        None
    }
}

/// Reads the maximal digit run, accumulating its value onto `acc`.
pub open spec fn p_digits(s: Seq<char>, acc: nat) -> (nat, Seq<char>)
    decreases s.len(),
{
    if s.len() == 0 || !is_digit(s[0]) {
        (acc, s)
    } else {
        p_digits(s.skip(1), acc * 10 + digit_val(s[0]) as nat)
    }
}

/// A canonical decimal number: `0`, or a run starting with a nonzero digit.
pub open spec fn p_num(s: Seq<char>) -> Option<(nat, Seq<char>)> {
    if s.len() == 0 || !is_digit(s[0]) {
        None
    } else if s[0] == '0' {
        Some((0, s.skip(1)))
    } else {
        Some(p_digits(s, 0))
    }
}

/// A number that fits in a `u32`.
pub open spec fn p_u32(s: Seq<char>) -> Option<(u32, Seq<char>)> {
    match p_num(s) {
        Some(nr) => if nr.0 <= u32::MAX { Some((nr.0 as u32, nr.1)) } else { None },
        None => None,
    }
}

/// The items of a nonempty string array, up to and including the closing
/// bracket.
pub open spec fn p_str_items(s: Seq<char>) -> Option<(Seq<Seq<char>>, Seq<char>)>
    decreases s.len(),
    via p_str_items_dec
{
    match p_string(s) {
        Some(vr) => {
            if vr.1.len() >= 1 && vr.1[0] == ']' {
                Some((seq![vr.0], vr.1.skip(1)))
            } else if vr.1.len() >= 1 && vr.1[0] == ',' {
                match p_str_items(vr.1.skip(1)) {
                    Some(lr) => Some((seq![vr.0] + lr.0, lr.1)),
                    None => None,
                }
            } else {
                None
            }
        },
        None => None,
    }
}

#[via_fn]
proof fn p_str_items_dec(s: Seq<char>) {
    if p_string(s) is Some {
        lemma_p_string_shrinks(s);
    }
}

/// A bracketed array of strings.
pub open spec fn p_str_arr(s: Seq<char>) -> Option<(Seq<Seq<char>>, Seq<char>)> {
    if s.len() >= 2 && s[0] == '[' && s[1] == ']' {
        Some((Seq::empty(), s.skip(2)))
    } else if s.len() >= 1 && s[0] == '[' {
        p_str_items(s.skip(1))
    } else {
        None
    }
}

/// One recipe object.
pub open spec fn p_recipe(s: Seq<char>) -> Option<(RecipeView, Seq<char>)> {
    match p_lit(s, lit_obj_id()) {
        Some(r1) => match p_u32(r1) {
            Some(id_r) => match p_lit(id_r.1, lit_name()) {
                Some(r2) => match p_string(r2) {
                    Some(name_r) => match p_lit(name_r.1, lit_ingredients()) {
                        Some(r3) => match p_str_arr(r3) {
                            Some(ing_r) => match p_lit(ing_r.1, lit_instructions()) {
                                Some(r4) => match p_str_arr(r4) {
                                    Some(ins_r) => match p_lit(ins_r.1, lit_servings()) {
                                        Some(r5) => match p_u32(r5) {
                                            Some(srv_r) => {
                                                if srv_r.1.len() >= 1 && srv_r.1[0] == '}' {
                                                    Some((
                                                        RecipeView {
                                                            id: id_r.0,
                                                            name: name_r.0,
                                                            ingredients: ing_r.0,
                                                            instructions: ins_r.0,
                                                            servings: srv_r.0,
                                                        },
                                                        srv_r.1.skip(1),
                                                    ))
                                                } else {
                                                    None
                                                }
                                            },
                                            None => None,
                                        },
                                        None => None,
                                    },
                                    None => None,
                                },
                                None => None,
                            },
                            None => None,
                        },
                        None => None,
                    },
                    None => None,
                },
                None => None,
            },
            None => None,
        },
        None => None,
    }
}

/// The items of a nonempty top-level array, up to and including the closing
/// bracket.
pub open spec fn p_recipe_items(s: Seq<char>) -> Option<(Seq<RecipeView>, Seq<char>)>
    decreases s.len(),
    via p_recipe_items_dec
{
    match p_recipe(s) {
        Some(vr) => {
            if vr.1.len() >= 1 && vr.1[0] == ']' {
                Some((seq![vr.0], vr.1.skip(1)))
            } else if vr.1.len() >= 1 && vr.1[0] == ',' {
                match p_recipe_items(vr.1.skip(1)) {
                    Some(lr) => Some((seq![vr.0] + lr.0, lr.1)),
                    None => None,
                }
            } else {
                None
            }
        },
        None => None,
    }
}

#[via_fn]
proof fn p_recipe_items_dec(s: Seq<char>) {
    if p_recipe(s) is Some {
        lemma_p_recipe_shrinks(s);
    }
}

/// The whole input as a collection: an empty array, or a bracketed list of
/// recipe objects, with nothing following.
pub open spec fn spec_parse(s: Seq<char>) -> Option<Seq<RecipeView>> {
    if s.len() == 2 && s[0] == '[' && s[1] == ']' {
        Some(Seq::empty())
    } else if s.len() >= 1 && s[0] == '[' {
        match p_recipe_items(s.skip(1)) {
            Some(lr) => if lr.1.len() == 0 { Some(lr.0) } else { None },
            None => None,
        }
    } else {
        None
    }
}

// ---------------------------------------------------------------------------
// Progress: every parser consumes part of its input. These bounds justify
// the termination of the list parsers above.
// ---------------------------------------------------------------------------

pub proof fn lemma_p_str_body_shrinks(s: Seq<char>)
    requires
        p_str_body(s) is Some,
    ensures
        (p_str_body(s)->0).1.len() < s.len(),
    decreases s.len(),
{
    if s[0] == '"' {
    } else if s[0] == '\\' {
        lemma_p_str_body_shrinks(s.skip(2));
    } else {
        lemma_p_str_body_shrinks(s.skip(1));
    }
}

pub proof fn lemma_p_string_shrinks(s: Seq<char>)
    requires
        p_string(s) is Some,
    ensures
        (p_string(s)->0).1.len() < s.len(),
{
    lemma_p_str_body_shrinks(s.skip(1));
}

pub proof fn lemma_p_num_shrinks(s: Seq<char>)
    requires
        p_num(s) is Some,
    ensures
        (p_num(s)->0).1.len() < s.len(),
{
    if s[0] == '0' {
    } else {
        lemma_p_digits_shrinks(s, 0);
    }
}

pub proof fn lemma_p_digits_shrinks(s: Seq<char>, acc: nat)
    requires
        s.len() >= 1,
        is_digit(s[0]),
    ensures
        p_digits(s, acc).1.len() < s.len(),
    decreases s.len(),
{
    let rest = s.skip(1);
    let acc2 = acc * 10 + digit_val(s[0]) as nat;
    if rest.len() >= 1 && is_digit(rest[0]) {
        lemma_p_digits_shrinks(rest, acc2);
    } else {
        assert(p_digits(rest, acc2).1 == rest);
    }
}

pub proof fn lemma_p_str_items_shrinks(s: Seq<char>)
    requires
        p_str_items(s) is Some,
    ensures
        (p_str_items(s)->0).1.len() < s.len(),
    decreases s.len(),
{
    lemma_p_string_shrinks(s);
    let vr = p_string(s)->0;
    if vr.1.len() >= 1 && vr.1[0] == ',' {
        lemma_p_str_items_shrinks(vr.1.skip(1));
    }
}

pub proof fn lemma_p_str_arr_shrinks(s: Seq<char>)
    requires
        p_str_arr(s) is Some,
    ensures
        (p_str_arr(s)->0).1.len() < s.len(),
{
    if s.len() >= 2 && s[0] == '[' && s[1] == ']' {
    } else {
        lemma_p_str_items_shrinks(s.skip(1));
    }
}

pub proof fn lemma_p_recipe_shrinks(s: Seq<char>)
    requires
        p_recipe(s) is Some,
    ensures
        (p_recipe(s)->0).1.len() < s.len(),
{
    let r1 = p_lit(s, lit_obj_id())->0;
    let id_r = p_u32(r1)->0;
    let r2 = p_lit(id_r.1, lit_name())->0;
    let name_r = p_string(r2)->0;
    let r3 = p_lit(name_r.1, lit_ingredients())->0;
    let ing_r = p_str_arr(r3)->0;
    let r4 = p_lit(ing_r.1, lit_instructions())->0;
    let ins_r = p_str_arr(r4)->0;
    let r5 = p_lit(ins_r.1, lit_servings())->0;
    let srv_r = p_u32(r5)->0;
    lemma_p_num_shrinks(r1);
    lemma_p_string_shrinks(r2);
    lemma_p_str_arr_shrinks(r3);
    lemma_p_str_arr_shrinks(r4);
    lemma_p_num_shrinks(r5);
}

} // verus!
