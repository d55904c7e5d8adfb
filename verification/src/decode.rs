use vstd::prelude::*;
use vstd::string::StrSliceExecFns;

use crate::codec::{
    digit_val, is_digit, lit_ingredients, lit_instructions, lit_name, lit_obj_id, lit_servings,
    p_digits, p_lit, p_num, p_recipe, p_recipe_items, p_str_arr, p_str_body, p_str_items,
    p_string, p_u32, spec_parse, unesc_code,
};
use crate::recipe::Recipe;

verus! {

fn is_digit_exec(c: char) -> (b: bool)
    ensures
        b == is_digit(c),
{
    c == '0' || c == '1' || c == '2' || c == '3' || c == '4' || c == '5' || c == '6' || c == '7'
        || c == '8' || c == '9'
}

fn digit_val_exec(c: char) -> (v: u32)
    requires
        is_digit(c),
    ensures
        v as int == digit_val(c),
{
    if c == '0' { 0 }
    else if c == '1' { 1 }
    else if c == '2' { 2 }
    else if c == '3' { 3 }
    else if c == '4' { 4 }
    else if c == '5' { 5 }
    else if c == '6' { 6 }
    else if c == '7' { 7 }
    else if c == '8' { 8 }
    else { 9 }
}

fn unesc_exec(c: char) -> (r: Option<char>)
    ensures
        r == unesc_code(c),
{
    if c == '"' { Some('"') }
    else if c == '\\' { Some('\\') }
    else if c == 'n' { Some('\n') }
    else if c == 'r' { Some('\r') }
    else if c == 't' { Some('\t') }
    else { None }
}

/// Consumes the literal `lit` at position `i`, yielding the next position.
fn expect_lit(s: &str, i: usize, lit: &str) -> (r: Option<usize>)
    requires
        i <= s@.len(),
    ensures
        match r {
            Some(j) => {
                &&& i <= j <= s@.len()
                &&& j - i == lit@.len()
                &&& p_lit(s@.skip(i as int), lit@) == Some(s@.skip(j as int))
            },
            None => p_lit(s@.skip(i as int), lit@) is None,
        },
{
    let n = s.unicode_len();
    let ll = lit.unicode_len();
    if n - i < ll {
        proof {
            assert(s@.skip(i as int).len() < lit@.len());
        }
        return None;
    }
    let mut k: usize = 0;
    while k < ll
        invariant
            k <= ll,
            ll <= n - i,
            i <= n,
            n == s@.len(),
            ll == lit@.len(),
            forall|m: int| 0 <= m < k ==> s@[i + m] == lit@[m],
        decreases ll - k,
    {
        if s.get_char(i + k) != lit.get_char(k) {
            proof {
                let t = s@.skip(i as int).take(ll as int);
                assert(t[k as int] == s@[i + k]);
                assert(t != lit@);
            }
            return None;
        }
        k = k + 1;
    }
    proof {
        assert(s@.skip(i as int).take(ll as int) =~= lit@);
        assert(s@.skip(i as int).skip(ll as int) =~= s@.skip(i + ll));
    }
    Some(i + ll)
}

/// Parses a canonical decimal number that fits a `u32` at position `i`.
fn parse_u32(s: &str, i: usize) -> (r: Option<(u32, usize)>)
    requires
        i <= s@.len(),
    ensures
        match r {
            Some(vj) => {
                &&& i < vj.1 <= s@.len()
                &&& p_u32(s@.skip(i as int)) == Some((vj.0, s@.skip(vj.1 as int)))
            },
            None => p_u32(s@.skip(i as int)) is None,
        },
{
    let n = s.unicode_len();
    if i == n {
        return None;
    }
    let c0 = s.get_char(i);
    if !is_digit_exec(c0) {
        proof {
            assert(s@.skip(i as int)[0] == c0);
        }
        return None;
    }
    proof {
        assert(s@.skip(i as int)[0] == c0);
    }
    if c0 == '0' {
        proof {
            assert(s@.skip(i as int).skip(1) =~= s@.skip(i + 1));
        }
        return Some((0, i + 1));
    }
    let mut j: usize = i;
    let mut acc: u64 = 0;
    let mut exceeded: bool = false;
    let ghost g: nat = 0nat;
    let mut val = Ghost(g);
    while j < n && is_digit_exec(s.get_char(j))
        invariant
            i <= j <= n,
            n == s@.len(),
            p_digits(s@.skip(i as int), 0) == p_digits(s@.skip(j as int), val@),
            !exceeded ==> acc as nat == val@ && acc <= u32::MAX as u64,
            exceeded ==> val@ > u32::MAX,
        decreases n - j,
    {
        let c = s.get_char(j);
        let d = digit_val_exec(c);
        proof {
            assert(s@.skip(j as int)[0] == c);
            assert(s@.skip(j as int).skip(1) =~= s@.skip(j + 1));
            assert(p_digits(s@.skip(j as int), val@) == p_digits(
                s@.skip(j + 1),
                val@ * 10 + digit_val(c) as nat,
            ));
        }
        let ghost val2: nat = val@ * 10 + digit_val(c) as nat;
        if !exceeded {
            let next = acc * 10 + d as u64;
            if next > u32::MAX as u64 {
                exceeded = true;
            } else {
                acc = next;
            }
            proof {
                assert(next as nat == val2);
            }
        } else {
            proof {
                assert(val2 >= val@ * 10);
                assert(val@ * 10 >= val@);
            }
        }
        val = Ghost(val2);
        j = j + 1;
    }
    proof {
        if j == n {
            assert(s@.skip(j as int).len() == 0);
        } else {
            assert(s@.skip(j as int)[0] == s@[j as int]);
        }
        assert(p_digits(s@.skip(j as int), val@) == (val@, s@.skip(j as int)));
        assert(p_num(s@.skip(i as int)) == Some((val@, s@.skip(j as int))));
    }
    if exceeded {
        return None;
    }
    proof {
        assert(j > i) by {
            assert(is_digit(s@.skip(i as int)[0]));
        }
    }
    Some((acc as u32, j))
}

/// Parses a quoted string at position `i`.
fn parse_string(s: &str, i: usize) -> (r: Option<(String, usize)>)
    requires
        i <= s@.len(),
    ensures
        match r {
            Some(vj) => {
                &&& i < vj.1 <= s@.len()
                &&& p_string(s@.skip(i as int)) == Some((vj.0@, s@.skip(vj.1 as int)))
            },
            None => p_string(s@.skip(i as int)) is None,
        },
{
    let n = s.unicode_len();
    if i == n || s.get_char(i) != '"' {
        proof {
            if i < n {
                assert(s@.skip(i as int)[0] == s@[i as int]);
            }
        }
        return None;
    }
    proof {
        assert(s@.skip(i as int)[0] == '"');
        assert(s@.skip(i as int).skip(1) =~= s@.skip(i + 1));
    }
    let mut out = String::new();
    let mut cur: usize = i + 1;
    loop
        invariant
            i + 1 <= cur <= n,
            n == s@.len(),
            p_string(s@.skip(i as int)) == p_str_body(s@.skip(i + 1)),
            (match p_str_body(s@.skip(cur as int)) {
                Some(tr) => p_str_body(s@.skip(i + 1)) == Some((out@ + tr.0, tr.1)),
                None => p_str_body(s@.skip(i + 1)) is None,
            }),
        decreases n - cur,
    {
        if cur == n {
            proof {
                assert(s@.skip(cur as int).len() == 0);
            }
            return None;
        }
        let c = s.get_char(cur);
        proof {
            assert(s@.skip(cur as int)[0] == c);
        }
        if c == '"' {
            proof {
                assert(s@.skip(cur as int).skip(1) =~= s@.skip(cur + 1));
                assert(out@ + Seq::<char>::empty() =~= out@);
            }
            return Some((out, cur + 1));
        } else if c == '\\' {
            if cur + 1 == n {
                proof {
                    assert(s@.skip(cur as int).len() < 2);
                }
                return None;
            }
            let e = s.get_char(cur + 1);
            proof {
                assert(s@.skip(cur as int)[1] == e);
            }
            match unesc_exec(e) {
                Some(c2) => {
                    proof {
                        assert(s@.skip(cur as int).skip(2) =~= s@.skip(cur + 2));
                    }
                    let ghost pre = out@;
                    crate::encode::push_char(&mut out, c2);
                    proof {
                        if p_str_body(s@.skip(cur + 2)) is Some {
                            let tr = p_str_body(s@.skip(cur + 2))->0;
                            assert(pre + (seq![c2] + tr.0) =~= out@ + tr.0);
                        }
                    }
                    cur = cur + 2;
                },
                None => {
                    return None;
                },
            }
        } else {
            proof {
                assert(s@.skip(cur as int).skip(1) =~= s@.skip(cur + 1));
            }
            let ghost pre = out@;
            crate::encode::push_char(&mut out, c);
            proof {
                if p_str_body(s@.skip(cur + 1)) is Some {
                    let tr = p_str_body(s@.skip(cur + 1))->0;
                    assert(pre + (seq![c] + tr.0) =~= out@ + tr.0);
                }
            }
            cur = cur + 1;
        }
    }
}

/// Parses a bracketed array of quoted strings at position `i`.
fn parse_str_arr(s: &str, i: usize) -> (r: Option<(Vec<String>, usize)>)
    requires
        i <= s@.len(),
    ensures
        match r {
            Some(vj) => {
                &&& i < vj.1 <= s@.len()
                &&& p_str_arr(s@.skip(i as int)) == Some((vj.0.deep_view(), s@.skip(vj.1 as int)))
            },
            None => p_str_arr(s@.skip(i as int)) is None,
        },
{
    let n = s.unicode_len();
    if i == n || s.get_char(i) != '[' {
        proof {
            if i < n {
                assert(s@.skip(i as int)[0] == s@[i as int]);
            }
        }
        return None;
    }
    proof {
        assert(s@.skip(i as int)[0] == '[');
    }
    if i + 1 < n && s.get_char(i + 1) == ']' {
        let empty_items: Vec<String> = Vec::new();
        proof {
            assert(s@.skip(i as int)[1] == ']');
            assert(s@.skip(i as int).skip(2) =~= s@.skip(i + 2));
            assert(empty_items.deep_view() =~= Seq::<Seq<char>>::empty());
        }
        return Some((empty_items, i + 2));
    }
    proof {
        if i + 1 < n {
            assert(s@.skip(i as int)[1] == s@[i + 1]);
        }
        assert(!(s@.skip(i as int).len() >= 2 && s@.skip(i as int)[1] == ']'));
        assert(s@.skip(i as int).skip(1) =~= s@.skip(i + 1));
    }
    let mut items: Vec<String> = Vec::new();
    let mut cur: usize = i + 1;
    loop
        invariant
            i + 1 <= cur <= n,
            n == s@.len(),
            p_str_arr(s@.skip(i as int)) == p_str_items(s@.skip(i + 1)),
            (match p_str_items(s@.skip(cur as int)) {
                Some(lr) => p_str_items(s@.skip(i + 1)) == Some((items.deep_view() + lr.0, lr.1)),
                None => p_str_items(s@.skip(i + 1)) is None,
            }),
        decreases n - cur,
    {
        let ghost pre = items.deep_view();
        match parse_string(s, cur) {
            None => {
                return None;
            },
            Some((v, j)) => {
                let ghost vv = v@;
                if j == n {
                    proof {
                        assert(s@.skip(j as int).len() == 0);
                    }
                    return None;
                }
                let d = s.get_char(j);
                proof {
                    assert(s@.skip(j as int)[0] == d);
                }
                if d == ']' {
                    items.push(v);
                    proof {
                        assert(s@.skip(j as int).skip(1) =~= s@.skip(j + 1));
                        assert(items.deep_view() =~= pre.push(vv));
                        assert(pre + seq![vv] =~= items.deep_view());
                    }
                    return Some((items, j + 1));
                } else if d == ',' {
                    items.push(v);
                    proof {
                        assert(s@.skip(j as int).skip(1) =~= s@.skip(j + 1));
                        assert(items.deep_view() =~= pre.push(vv));
                        if p_str_items(s@.skip(j + 1)) is Some {
                            let lr = p_str_items(s@.skip(j + 1))->0;
                            assert(pre + (seq![vv] + lr.0) =~= items.deep_view() + lr.0);
                        }
                    }
                    cur = j + 1;
                } else {
                    return None;
                }
            },
        }
    }
}

/// Parses one recipe object at position `i`.
#[verifier::rlimit(60)]
fn parse_recipe(s: &str, i: usize) -> (r: Option<(Recipe, usize)>)
    requires
        i <= s@.len(),
    ensures
        match r {
            Some(vj) => {
                &&& i < vj.1 <= s@.len()
                &&& p_recipe(s@.skip(i as int)) == Some((vj.0@, s@.skip(vj.1 as int)))
            },
            None => p_recipe(s@.skip(i as int)) is None,
        },
{
    proof {
        reveal_strlit("{\"id\":");
        assert(("{\"id\":")@ =~= lit_obj_id());
        reveal_strlit(",\"name\":");
        assert((",\"name\":")@ =~= lit_name());
        reveal_strlit(",\"ingredients\":");
        assert((",\"ingredients\":")@ =~= lit_ingredients());
        reveal_strlit(",\"instructions\":");
        assert((",\"instructions\":")@ =~= lit_instructions());
        reveal_strlit(",\"servings\":");
        assert((",\"servings\":")@ =~= lit_servings());
    }
    let j1 = match expect_lit(s, i, "{\"id\":") {
        Some(j) => j,
        None => {
            return None;
        },
    };
    let (id, j2) = match parse_u32(s, j1) {
        Some(vj) => vj,
        None => {
            return None;
        },
    };
    let j3 = match expect_lit(s, j2, ",\"name\":") {
        Some(j) => j,
        None => {
            return None;
        },
    };
    let (name, j4) = match parse_string(s, j3) {
        Some(vj) => vj,
        None => {
            return None;
        },
    };
    let j5 = match expect_lit(s, j4, ",\"ingredients\":") {
        Some(j) => j,
        None => {
            return None;
        },
    };
    let (ingredients, j6) = match parse_str_arr(s, j5) {
        Some(vj) => vj,
        None => {
            return None;
        },
    };
    let j7 = match expect_lit(s, j6, ",\"instructions\":") {
        Some(j) => j,
        None => {
            return None;
        },
    };
    let (instructions, j8) = match parse_str_arr(s, j7) {
        Some(vj) => vj,
        None => {
            return None;
        },
    };
    let j9 = match expect_lit(s, j8, ",\"servings\":") {
        Some(j) => j,
        None => {
            return None;
        },
    };
    let (servings, j10) = match parse_u32(s, j9) {
        Some(vj) => vj,
        None => {
            return None;
        },
    };
    let n = s.unicode_len();
    if j10 == n || s.get_char(j10) != '}' {
        proof {
            if j10 < n {
                assert(s@.skip(j10 as int)[0] == s@[j10 as int]);
            }
        }
        return None;
    }
    proof {
        assert(s@.skip(j10 as int)[0] == '}');
        assert(s@.skip(j10 as int).skip(1) =~= s@.skip(j10 + 1));
    }
    let rec = Recipe::new(id, name, ingredients, instructions, servings);
    Some((rec, j10 + 1))
}

/// Parses a whole serialized collection; yields `None` unless the entire
/// input is one well-formed array of recipe objects.
pub fn parse_recipes(s: &str) -> (r: Option<Vec<Recipe>>)
    ensures
        match r {
            Some(v) => spec_parse(s@) == Some(v.deep_view()),
            None => spec_parse(s@) is None,
        },
{
    let n = s.unicode_len();
    if n == 2 && s.get_char(0) == '[' && s.get_char(1) == ']' {
        let empty_recipes: Vec<Recipe> = Vec::new();
        proof {
            assert(empty_recipes.deep_view() =~= Seq::<crate::recipe::RecipeView>::empty());
        }
        return Some(empty_recipes);
    }
    if n == 0 || s.get_char(0) != '[' {
        return None;
    }
    proof {
        assert(s@.skip(0).skip(1) =~= s@.skip(1));
        assert(s@.skip(0) =~= s@);
    }
    let mut recipes: Vec<Recipe> = Vec::new();
    let mut cur: usize = 1;
    loop
        invariant
            1 <= cur <= n,
            n == s@.len(),
            n >= 1,
            s@[0] == '[',
            !(n == 2 && s@[1] == ']'),
            (match p_recipe_items(s@.skip(cur as int)) {
                Some(lr) => p_recipe_items(s@.skip(1)) == Some((recipes.deep_view() + lr.0, lr.1)),
                None => p_recipe_items(s@.skip(1)) is None,
            }),
        decreases n - cur,
    {
        let ghost pre = recipes.deep_view();
        match parse_recipe(s, cur) {
            None => {
                return None;
            },
            Some((rec, j)) => {
                let ghost rv = rec@;
                if j == n {
                    proof {
                        assert(s@.skip(j as int).len() == 0);
                    }
                    return None;
                }
                let d = s.get_char(j);
                proof {
                    assert(s@.skip(j as int)[0] == d);
                }
                if d == ']' {
                    recipes.push(rec);
                    proof {
                        assert(s@.skip(j as int).skip(1) =~= s@.skip(j + 1));
                        assert(recipes.deep_view() =~= pre.push(rv));
                        assert(pre + seq![rv] =~= recipes.deep_view());
                    }
                    if j + 1 == n {
                        proof {
                            assert(s@.skip(j + 1).len() == 0);
                        }
                        return Some(recipes);
                    }
                    proof {
                        assert(s@.skip(j + 1).len() > 0);
                    }
                    return None;
                } else if d == ',' {
                    recipes.push(rec);
                    proof {
                        assert(s@.skip(j as int).skip(1) =~= s@.skip(j + 1));
                        assert(recipes.deep_view() =~= pre.push(rv));
                        if p_recipe_items(s@.skip(j + 1)) is Some {
                            let lr = p_recipe_items(s@.skip(j + 1))->0;
                            assert(pre + (seq![rv] + lr.0) =~= recipes.deep_view() + lr.0);
                        }
                    }
                    cur = j + 1;
                } else {
                    return None;
                }
            },
        }
    }
}

} // verus!
