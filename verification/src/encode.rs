use vstd::prelude::*;
use vstd::string::{StrSliceExecFns, StringExecFns};

use crate::codec::{
    dec_of, digit_char, esc_char, esc_str, json_of, json_recipe, json_recipe_list, json_str,
    json_str_arr, json_str_list, lit_ingredients, lit_instructions, lit_name, lit_obj_id,
    lit_servings,
};
use crate::recipe::Recipe;
use crate::recipe::RecipeView;

verus! {

/// Relies on String::push: it appends exactly the given character.
#[verifier::external_body]
pub(crate) fn push_char(out: &mut String, c: char)
    ensures
        final(out)@ == old(out)@.push(c),
{
    out.push(c);
}

fn digit_exec(n: u32) -> (c: char)
    requires
        n < 10,
    ensures
        c == digit_char(n as int),
{
    if n == 0 { '0' }
    else if n == 1 { '1' }
    else if n == 2 { '2' }
    else if n == 3 { '3' }
    else if n == 4 { '4' }
    else if n == 5 { '5' }
    else if n == 6 { '6' }
    else if n == 7 { '7' }
    else if n == 8 { '8' }
    else { '9' }
}

/// Appends the canonical decimal form of `n`.
fn push_dec(out: &mut String, n: u32)
    ensures
        final(out)@ == old(out)@ + dec_of(n as nat),
    decreases n,
{
    if n >= 10 {
        push_dec(out, n / 10);
    }
    let d = digit_exec(n % 10);
    push_char(out, d);
    proof {
        if n < 10 {
            assert(final(out)@ =~= old(out)@ + dec_of(n as nat));
        } else {
            assert(dec_of(n as nat) == dec_of(n as nat / 10).push(digit_char((n as nat % 10) as int)));
            assert(n as nat / 10 == (n / 10) as nat);
            assert((n as nat % 10) as int == (n % 10) as int);
            assert(final(out)@ =~= old(out)@ + dec_of(n as nat));
        }
    }
}

proof fn lemma_esc_str_snoc(t: Seq<char>, c: char)
    ensures
        esc_str(t.push(c)) == esc_str(t) + esc_char(c),
    decreases t.len(),
{
    if t.len() == 0 {
        assert(t.push(c) =~= seq![c]);
        assert(seq![c].skip(1) =~= Seq::<char>::empty());
        assert(esc_str(seq![c]) == esc_char(c) + esc_str(Seq::<char>::empty()));
        assert(esc_char(c) + Seq::<char>::empty() =~= Seq::<char>::empty() + esc_char(c));
        assert(esc_str(t) =~= Seq::<char>::empty());
    } else {
        assert(t.push(c).skip(1) =~= t.skip(1).push(c));
        lemma_esc_str_snoc(t.skip(1), c);
        assert(esc_str(t.push(c)) == esc_char(t[0]) + (esc_str(t.skip(1)) + esc_char(c)));
        assert(esc_char(t[0]) + (esc_str(t.skip(1)) + esc_char(c)) =~= (esc_char(t[0]) + esc_str(
            t.skip(1),
        )) + esc_char(c));
    }
}

/// Appends `s` as a quoted, escaped string.
fn push_json_str(out: &mut String, s: &str)
    ensures
        final(out)@ == old(out)@ + json_str(s@),
{
    push_char(out, '"');
    let ghost base = out@;
    let n = s.unicode_len();
    let mut i: usize = 0;
    while i < n
        invariant
            i <= n,
            n == s@.len(),
            out@ == base + esc_str(s@.take(i as int)),
        decreases n - i,
    {
        let c = s.get_char(i);
        let ghost pre = out@;
        if c == '"' {
            push_char(out, '\\');
            push_char(out, '"');
        } else if c == '\\' {
            push_char(out, '\\');
            push_char(out, '\\');
        } else if c == '\n' {
            push_char(out, '\\');
            push_char(out, 'n');
        } else if c == '\r' {
            push_char(out, '\\');
            push_char(out, 'r');
        } else if c == '\t' {
            push_char(out, '\\');
            push_char(out, 't');
        } else {
            push_char(out, c);
        }
        proof {
            assert(out@ =~= pre + esc_char(c));
            lemma_esc_str_snoc(s@.take(i as int), c);
            assert(s@.take(i + 1) =~= s@.take(i as int).push(c));
            assert(out@ =~= base + esc_str(s@.take(i + 1)));
        }
        i = i + 1;
    }
    push_char(out, '"');
    proof {
        assert(s@.take(n as int) =~= s@);
        assert(final(out)@ =~= old(out)@ + json_str(s@));
    }
}

proof fn lemma_json_str_list_snoc(l: Seq<Seq<char>>, x: Seq<char>)
    ensures
        l.len() == 0 ==> json_str_list(l.push(x)) == json_str(x),
        l.len() >= 1 ==> json_str_list(l.push(x)) == json_str_list(l) + seq![','] + json_str(x),
    decreases l.len(),
{
    if l.len() == 0 {
        assert(l.push(x) =~= seq![x]);
    } else if l.len() == 1 {
        assert(l.push(x).skip(1) =~= seq![x]);
        assert(json_str_list(l.push(x)) == json_str(l[0]) + seq![','] + json_str_list(seq![x]));
        assert(json_str_list(l) == json_str(l[0]));
    } else {
        assert(l.push(x).skip(1) =~= l.skip(1).push(x));
        lemma_json_str_list_snoc(l.skip(1), x);
        assert(json_str_list(l.push(x)) == json_str(l[0]) + seq![','] + (json_str_list(l.skip(1))
            + seq![','] + json_str(x)));
        assert(json_str(l[0]) + seq![','] + (json_str_list(l.skip(1)) + seq![','] + json_str(x))
            =~= (json_str(l[0]) + seq![','] + json_str_list(l.skip(1))) + seq![','] + json_str(x));
    }
}

/// Appends the items as a bracketed array of quoted strings.
fn push_str_arr(out: &mut String, items: &Vec<String>)
    ensures
        final(out)@ == old(out)@ + json_str_arr(items.deep_view()),
{
    push_char(out, '[');
    let ghost base = out@;
    let n = items.len();
    let mut i: usize = 0;
    while i < n
        invariant
            i <= n,
            n == items.deep_view().len(),
            out@ == base + json_str_list(items.deep_view().take(i as int)),
        decreases n - i,
    {
        let ghost pre = out@;
        if i > 0 {
            push_char(out, ',');
        }
        push_json_str(out, items[i].as_str());
        proof {
            let l = items.deep_view().take(i as int);
            let x = items.deep_view()[i as int];
            assert(items@[i as int]@ == x);
            lemma_json_str_list_snoc(l, x);
            assert(items.deep_view().take(i + 1) =~= l.push(x));
            assert(out@ =~= base + json_str_list(items.deep_view().take(i + 1)));
        }
        i = i + 1;
    }
    push_char(out, ']');
    proof {
        assert(items.deep_view().take(n as int) =~= items.deep_view());
        assert(final(out)@ =~= old(out)@ + json_str_arr(items.deep_view()));
    }
}

/// Appends one recipe as a JSON object.
#[verifier::rlimit(60)]
fn push_recipe(out: &mut String, r: &Recipe)
    ensures
        final(out)@ == old(out)@ + json_recipe(r@),
{
    out.append("{\"id\":");
    proof {
        reveal_strlit("{\"id\":");
        assert(("{\"id\":")@ =~= lit_obj_id());
    }
    push_dec(out, r.id);
    out.append(",\"name\":");
    proof {
        reveal_strlit(",\"name\":");
        assert((",\"name\":")@ =~= lit_name());
    }
    push_json_str(out, r.name.as_str());
    out.append(",\"ingredients\":");
    proof {
        reveal_strlit(",\"ingredients\":");
        assert((",\"ingredients\":")@ =~= lit_ingredients());
    }
    push_str_arr(out, &r.ingredients);
    out.append(",\"instructions\":");
    proof {
        reveal_strlit(",\"instructions\":");
        assert((",\"instructions\":")@ =~= lit_instructions());
    }
    push_str_arr(out, &r.instructions);
    out.append(",\"servings\":");
    proof {
        reveal_strlit(",\"servings\":");
        assert((",\"servings\":")@ =~= lit_servings());
    }
    push_dec(out, r.servings);
    push_char(out, '}');
    proof {
        assert(final(out)@ =~= old(out)@ + json_recipe(r@));
    }
}

proof fn lemma_json_recipe_list_snoc(l: Seq<RecipeView>, x: RecipeView)
    ensures
        l.len() == 0 ==> json_recipe_list(l.push(x)) == json_recipe(x),
        l.len() >= 1 ==> json_recipe_list(l.push(x)) == json_recipe_list(l) + seq![',']
            + json_recipe(x),
    decreases l.len(),
{
    if l.len() == 0 {
        assert(l.push(x) =~= seq![x]);
    } else if l.len() == 1 {
        assert(l.push(x).skip(1) =~= seq![x]);
        assert(json_recipe_list(l.push(x)) == json_recipe(l[0]) + seq![','] + json_recipe_list(
            seq![x],
        ));
        assert(json_recipe_list(l) == json_recipe(l[0]));
    } else {
        assert(l.push(x).skip(1) =~= l.skip(1).push(x));
        lemma_json_recipe_list_snoc(l.skip(1), x);
        assert(json_recipe_list(l.push(x)) == json_recipe(l[0]) + seq![','] + (json_recipe_list(
            l.skip(1),
        ) + seq![','] + json_recipe(x)));
        assert(json_recipe(l[0]) + seq![','] + (json_recipe_list(l.skip(1)) + seq![',']
            + json_recipe(x)) =~= (json_recipe(l[0]) + seq![','] + json_recipe_list(l.skip(1)))
            + seq![','] + json_recipe(x));
    }
}

/// Serializes a whole collection of recipes to its textual form.
pub fn recipes_to_json(list: &Vec<Recipe>) -> (out: String)
    ensures
        out@ == json_of(list.deep_view()),
{
    let mut out = String::new();
    push_char(&mut out, '[');
    let ghost base = out@;
    let n = list.len();
    let mut i: usize = 0;
    while i < n
        invariant
            i <= n,
            n == list.deep_view().len(),
            out@ == base + json_recipe_list(list.deep_view().take(i as int)),
        decreases n - i,
    {
        let ghost pre = out@;
        if i > 0 {
            push_char(&mut out, ',');
        }
        push_recipe(&mut out, &list[i]);
        proof {
            let l = list.deep_view().take(i as int);
            let x = list.deep_view()[i as int];
            assert(list@[i as int]@ == x);
            lemma_json_recipe_list_snoc(l, x);
            assert(list.deep_view().take(i + 1) =~= l.push(x));
            assert(out@ =~= base + json_recipe_list(list.deep_view().take(i + 1)));
        }
        i = i + 1;
    }
    push_char(&mut out, ']');
    proof {
        assert(list.deep_view().take(n as int) =~= list.deep_view());
        assert(out@ =~= json_of(list.deep_view()));
    }
    out
}

} // verus!
