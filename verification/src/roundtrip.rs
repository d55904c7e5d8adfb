use vstd::prelude::*;

use crate::codec::{
    dec_of, digit_char, digit_val, esc_char, esc_str, is_digit, json_of, json_recipe,
    json_recipe_list, json_str, json_str_arr, json_str_list, lit_ingredients, lit_instructions,
    lit_name, lit_obj_id, lit_servings, p_digits, p_lit, p_num, p_recipe, p_recipe_items,
    p_str_arr, p_str_body, p_str_items, p_string, p_u32, spec_parse, unesc_code,
};
use crate::recipe::RecipeView;

verus! {

// ---------------------------------------------------------------------------
// Parsing inverts serialization: `spec_parse(json_of(rs)) == Some(rs)`.
// The proof follows the grammar, one production at a time; every lemma is of
// the shape "parsing `written form + rest` yields the value and `rest`".
// ---------------------------------------------------------------------------

/// All characters of the sequence are decimal digits.
pub open spec fn digits_only(ds: Seq<char>) -> bool {
    forall|i: int| 0 <= i < ds.len() ==> is_digit(ds[i])
}

/// The value of a digit run, accumulated left to right onto `acc`.
pub open spec fn dval(acc: nat, ds: Seq<char>) -> nat
    decreases ds.len(),
{
    if ds.len() == 0 {
        acc
    } else {
        dval(acc * 10 + digit_val(ds[0]) as nat, ds.skip(1))
    }
}

/// One more than the number of digits of `n`, as a power of ten.
pub open spec fn pow_len(n: nat) -> nat
    decreases n,
{
    if n < 10 {
        10
    } else {
        10 * pow_len(n / 10)
    }
}

proof fn lemma_p_digits_run(ds: Seq<char>, rest: Seq<char>, acc: nat)
    requires
        digits_only(ds),
        rest.len() == 0 || !is_digit(rest[0]),
    ensures
        p_digits(ds + rest, acc) == (dval(acc, ds), rest),
    decreases ds.len(),
{
    if ds.len() == 0 {
        assert(ds + rest =~= rest);
    } else {
        let s = ds + rest;
        assert(s[0] == ds[0]);
        let acc2 = acc * 10 + digit_val(ds[0]) as nat;
        assert(s.skip(1) =~= ds.skip(1) + rest);
        lemma_p_digits_run(ds.skip(1), rest, acc2);
    }
}

proof fn lemma_dval_append(acc: nat, a: Seq<char>, b: Seq<char>)
    ensures
        dval(acc, a + b) == dval(dval(acc, a), b),
    decreases a.len(),
{
    if a.len() == 0 {
        assert(a + b =~= b);
    } else {
        let acc2 = acc * 10 + digit_val(a[0]) as nat;
        assert((a + b).skip(1) =~= a.skip(1) + b);
        lemma_dval_append(acc2, a.skip(1), b);
    }
}

proof fn lemma_dval_dec(n: nat, acc: nat)
    ensures
        dval(acc, dec_of(n)) == acc * pow_len(n) + n,
    decreases n,
{
    if n < 10 {
        let d = digit_char(n as int);
        assert(digit_val(d) == n);
        assert(dval(acc, dec_of(n)) == dval(acc * 10 + n, dec_of(n).skip(1)));
        assert(dec_of(n).skip(1) =~= Seq::<char>::empty());
    } else {
        let q = n / 10;
        let m = n % 10;
        let d = digit_char(m as int);
        assert(0 <= m < 10) by {
            vstd::arithmetic::div_mod::lemma_mod_bound(n as int, 10);
        }
        assert(digit_val(d) == m);
        assert(dec_of(n) =~= dec_of(q) + seq![d]);
        lemma_dval_append(acc, dec_of(q), seq![d]);
        lemma_dval_dec(q, acc);
        let p = pow_len(q);
        assert(dval(acc, dec_of(n)) == dval(acc * p + q, seq![d]));
        let a2 = (acc * p + q) * 10 + digit_val(d) as nat;
        assert(seq![d].skip(1) =~= Seq::<char>::empty());
        assert(dval(acc * p + q, seq![d]) == dval(a2, seq![d].skip(1)));
        assert(dval(a2, Seq::<char>::empty()) == a2);
        assert(dval(acc * p + q, seq![d]) == (acc * p + q) * 10 + m);
        assert(n == 10 * q + m) by {
            vstd::arithmetic::div_mod::lemma_fundamental_div_mod(n as int, 10);
        }
        assert((acc * p + q) * 10 + m == acc * (10 * p) + (10 * q + m)) by (nonlinear_arith);
        assert(pow_len(n) == 10 * p);
    }
}

proof fn lemma_dec_of_digits(n: nat)
    ensures
        digits_only(dec_of(n)),
        dec_of(n).len() >= 1,
        n > 0 ==> dec_of(n)[0] != '0',
    decreases n,
{
    if n < 10 {
    } else {
        lemma_dec_of_digits(n / 10);
        assert(n / 10 > 0) by {
            vstd::arithmetic::div_mod::lemma_div_non_zero(n as int, 10);
        }
        let prev = dec_of(n / 10);
        let d = digit_char((n % 10) as int);
        assert(0 <= n % 10 < 10) by {
            vstd::arithmetic::div_mod::lemma_mod_bound(n as int, 10);
        }
        assert(dec_of(n) == prev.push(d));
        assert(forall|i: int| 0 <= i < prev.len() ==> dec_of(n)[i] == prev[i]);
        assert(dec_of(n)[prev.len() as int] == d);
    }
}

proof fn lemma_p_num_of_dec(n: nat, rest: Seq<char>)
    requires
        rest.len() == 0 || !is_digit(rest[0]),
    ensures
        p_num(dec_of(n) + rest) == Some((n, rest)),
{
    lemma_dec_of_digits(n);
    let s = dec_of(n) + rest;
    assert(s[0] == dec_of(n)[0]);
    if n == 0 {
        assert(dec_of(0) =~= seq!['0']);
        assert(s[0] == '0');
        assert(s.skip(1) =~= rest);
    } else {
        assert(s[0] != '0');
        lemma_p_digits_run(dec_of(n), rest, 0);
        lemma_dval_dec(n, 0);
    }
}

proof fn lemma_p_u32_of_dec(n: u32, rest: Seq<char>)
    requires
        rest.len() == 0 || !is_digit(rest[0]),
    ensures
        p_u32(dec_of(n as nat) + rest) == Some((n, rest)),
{
    lemma_p_num_of_dec(n as nat, rest);
}

proof fn lemma_p_str_body_of_esc(v: Seq<char>, rest: Seq<char>)
    ensures
        p_str_body(esc_str(v) + seq!['"'] + rest) == Some((v, rest)),
    decreases v.len(),
{
    let s = esc_str(v) + seq!['"'] + rest;
    if v.len() == 0 {
        assert(s =~= seq!['"'] + rest);
        assert(s[0] == '"');
        assert(s.skip(1) =~= rest);
    } else {
        let c = v[0];
        let tail = v.skip(1);
        lemma_p_str_body_of_esc(tail, rest);
        assert(esc_str(v) == esc_char(c) + esc_str(tail));
        if c == '"' || c == '\\' || c == '\n' || c == '\r' || c == '\t' {
            let e = esc_char(c)[1];
            assert(s[0] == '\\');
            assert(s[1] == e);
            assert(unesc_code(e) == Some(c));
            assert(s.skip(2) =~= esc_str(tail) + seq!['"'] + rest);
            assert(seq![c] + v.skip(1) =~= v);
        } else {
            assert(esc_char(c) =~= seq![c]);
            assert(s[0] == c);
            assert(c != '"' && c != '\\');
            assert(s.skip(1) =~= esc_str(tail) + seq!['"'] + rest);
            assert(seq![c] + v.skip(1) =~= v);
        }
    }
}

proof fn lemma_p_string_of_json_str(v: Seq<char>, rest: Seq<char>)
    ensures
        p_string(json_str(v) + rest) == Some((v, rest)),
{
    let s = json_str(v) + rest;
    assert(s[0] == '"');
    assert(s.skip(1) =~= esc_str(v) + seq!['"'] + rest);
    lemma_p_str_body_of_esc(v, rest);
}

proof fn lemma_p_str_items_of_list(l: Seq<Seq<char>>, rest: Seq<char>)
    requires
        l.len() >= 1,
    ensures
        p_str_items(json_str_list(l) + seq![']'] + rest) == Some((l, rest)),
    decreases l.len(),
{
    let s = json_str_list(l) + seq![']'] + rest;
    if l.len() == 1 {
        assert(s =~= json_str(l[0]) + (seq![']'] + rest));
        lemma_p_string_of_json_str(l[0], seq![']'] + rest);
        let vr1 = (seq![']'] + rest)[0];
        assert(vr1 == ']');
        assert((seq![']'] + rest).skip(1) =~= rest);
        assert(seq![l[0]] =~= l);
    } else {
        let tail_text = json_str_list(l.skip(1)) + seq![']'] + rest;
        assert(s =~= json_str(l[0]) + (seq![','] + tail_text));
        lemma_p_string_of_json_str(l[0], seq![','] + tail_text);
        assert((seq![','] + tail_text)[0] == ',');
        assert((seq![','] + tail_text).skip(1) =~= tail_text);
        lemma_p_str_items_of_list(l.skip(1), rest);
        assert(seq![l[0]] + l.skip(1) =~= l);
    }
}

proof fn lemma_p_str_arr_of_json(l: Seq<Seq<char>>, rest: Seq<char>)
    ensures
        p_str_arr(json_str_arr(l) + rest) == Some((l, rest)),
{
    let s = json_str_arr(l) + rest;
    assert(s[0] == '[');
    if l.len() == 0 {
        assert(json_str_list(l) =~= Seq::<char>::empty());
        assert(s =~= seq!['[', ']'] + rest);
        assert(s[1] == ']');
        assert(s.skip(2) =~= rest);
        assert(Seq::<Seq<char>>::empty() =~= l);
    } else {
        assert(json_str_list(l).len() >= 1 && json_str_list(l)[0] == '"') by {
            if l.len() == 1 {
                assert(json_str_list(l) == json_str(l[0]));
                assert(json_str(l[0])[0] == '"');
            } else {
                assert(json_str_list(l)[0] == json_str(l[0])[0]);
                assert(json_str(l[0])[0] == '"');
            }
        }
        assert(s[1] == '"');
        assert(s.skip(1) =~= json_str_list(l) + seq![']'] + rest);
        lemma_p_str_items_of_list(l, rest);
    }
}

proof fn lemma_p_lit_of(lit: Seq<char>, rest: Seq<char>)
    ensures
        p_lit(lit + rest, lit) == Some(rest),
{
    let s = lit + rest;
    assert(s.take(lit.len() as int) =~= lit);
    assert(s.skip(lit.len() as int) =~= rest);
}

/// The `k`-th piece of a serialized recipe object.
spec fn piece(r: RecipeView, k: int) -> Seq<char> {
    if k == 0 { lit_obj_id() }
    else if k == 1 { dec_of(r.id as nat) }
    else if k == 2 { lit_name() }
    else if k == 3 { json_str(r.name) }
    else if k == 4 { lit_ingredients() }
    else if k == 5 { json_str_arr(r.ingredients) }
    else if k == 6 { lit_instructions() }
    else if k == 7 { json_str_arr(r.instructions) }
    else if k == 8 { lit_servings() }
    else if k == 9 { dec_of(r.servings as nat) }
    else { seq!['}'] }
}

/// The serialized pieces of a recipe from the `k`-th on, followed by `rest`,
/// grouped to the right so that each parsing step peels one piece off.
spec fn tail_from(r: RecipeView, rest: Seq<char>, k: int) -> Seq<char>
    decreases 11 - k,
{
    if k >= 11 || k < 0 {
        rest
    } else {
        piece(r, k) + tail_from(r, rest, k + 1)
    }
}

#[verifier::rlimit(100)]
proof fn lemma_json_recipe_grouping(r: RecipeView, rest: Seq<char>)
    ensures
        json_recipe(r) + rest =~= tail_from(r, rest, 0),
{
    assert(tail_from(r, rest, 11) == rest);
    assert(tail_from(r, rest, 10) == piece(r, 10) + tail_from(r, rest, 11));
    assert(tail_from(r, rest, 9) == piece(r, 9) + tail_from(r, rest, 10));
    assert(tail_from(r, rest, 8) == piece(r, 8) + tail_from(r, rest, 9));
    assert(tail_from(r, rest, 7) == piece(r, 7) + tail_from(r, rest, 8));
    assert(tail_from(r, rest, 6) == piece(r, 6) + tail_from(r, rest, 7));
    assert(tail_from(r, rest, 5) == piece(r, 5) + tail_from(r, rest, 6));
    assert(tail_from(r, rest, 4) == piece(r, 4) + tail_from(r, rest, 5));
    assert(tail_from(r, rest, 3) == piece(r, 3) + tail_from(r, rest, 4));
    assert(tail_from(r, rest, 2) == piece(r, 2) + tail_from(r, rest, 3));
    assert(tail_from(r, rest, 1) == piece(r, 1) + tail_from(r, rest, 2));
    assert(tail_from(r, rest, 0) == piece(r, 0) + tail_from(r, rest, 1));
    assert(json_recipe(r) + rest =~= tail_from(r, rest, 0));
}

#[verifier::rlimit(100)]
proof fn lemma_p_recipe_of_json(r: RecipeView, rest: Seq<char>)
    ensures
        p_recipe(json_recipe(r) + rest) == Some((r, rest)),
{
    let s = json_recipe(r) + rest;
    lemma_json_recipe_grouping(r, rest);

    let t1 = tail_from(r, rest, 1);
    lemma_p_lit_of(lit_obj_id(), t1);

    let t2 = tail_from(r, rest, 2);
    assert(t2[0] == ',');
    lemma_p_u32_of_dec(r.id, t2);

    let t3 = tail_from(r, rest, 3);
    lemma_p_lit_of(lit_name(), t3);

    let t4 = tail_from(r, rest, 4);
    lemma_p_string_of_json_str(r.name, t4);

    let t5 = tail_from(r, rest, 5);
    lemma_p_lit_of(lit_ingredients(), t5);

    let t6 = tail_from(r, rest, 6);
    lemma_p_str_arr_of_json(r.ingredients, t6);

    let t7 = tail_from(r, rest, 7);
    lemma_p_lit_of(lit_instructions(), t7);

    let t8 = tail_from(r, rest, 8);
    lemma_p_str_arr_of_json(r.instructions, t8);

    let t9 = tail_from(r, rest, 9);
    lemma_p_lit_of(lit_servings(), t9);

    let t10 = tail_from(r, rest, 10);
    assert(tail_from(r, rest, 11) == rest);
    assert(t10 == piece(r, 10) + tail_from(r, rest, 11));
    assert(t10[0] == '}');
    lemma_p_u32_of_dec(r.servings, t10);

    assert(t10.skip(1) =~= rest);
    assert((RecipeView {
        id: r.id,
        name: r.name,
        ingredients: r.ingredients,
        instructions: r.instructions,
        servings: r.servings,
    }) == r);
}

#[verifier::rlimit(60)]
proof fn lemma_p_recipe_items_of_list(rs: Seq<RecipeView>, rest: Seq<char>)
    requires
        rs.len() >= 1,
    ensures
        p_recipe_items(json_recipe_list(rs) + seq![']'] + rest) == Some((rs, rest)),
    decreases rs.len(),
{
    let s = json_recipe_list(rs) + seq![']'] + rest;
    if rs.len() == 1 {
        assert(s =~= json_recipe(rs[0]) + (seq![']'] + rest));
        lemma_p_recipe_of_json(rs[0], seq![']'] + rest);
        assert((seq![']'] + rest)[0] == ']');
        assert((seq![']'] + rest).skip(1) =~= rest);
        assert(seq![rs[0]] =~= rs);
    } else {
        let tail_text = json_recipe_list(rs.skip(1)) + seq![']'] + rest;
        assert(s =~= json_recipe(rs[0]) + (seq![','] + tail_text));
        lemma_p_recipe_of_json(rs[0], seq![','] + tail_text);
        assert((seq![','] + tail_text)[0] == ',');
        assert((seq![','] + tail_text).skip(1) =~= tail_text);
        lemma_p_recipe_items_of_list(rs.skip(1), rest);
        assert(seq![rs[0]] + rs.skip(1) =~= rs);
    }
}

/// The round-trip law of persistence: parsing the serialized form of any
/// collection yields exactly that collection, record for record and field for
/// field.
pub proof fn lemma_round_trip(rs: Seq<RecipeView>)
    ensures
        spec_parse(json_of(rs)) == Some(rs),
{
    let s = json_of(rs);
    if rs.len() == 0 {
        assert(json_recipe_list(rs) =~= Seq::<char>::empty());
        assert(s =~= seq!['[', ']']);
        assert(s.len() == 2 && s[0] == '[' && s[1] == ']');
        assert(Seq::<RecipeView>::empty() =~= rs);
    } else {
        assert(json_recipe_list(rs).len() >= 1) by {
            let jr = json_recipe(rs[0]);
            assert(jr.len() >= lit_obj_id().len());
            if rs.len() == 1 {
                assert(json_recipe_list(rs) == jr);
            } else {
                assert(json_recipe_list(rs) == jr + seq![','] + json_recipe_list(rs.skip(1)));
            }
        }
        assert(s.len() >= 3);
        assert(s[0] == '[');
        assert(s.skip(1) =~= json_recipe_list(rs) + seq![']'] + Seq::<char>::empty());
        lemma_p_recipe_items_of_list(rs, Seq::empty());
    }
}

} // verus!
