//! What tokens cost. Rates are exact decimals, so costs are exact integers of a small unit.
use crate::snapshot::Usd;
use crate::text::{chars_of, contains_text, occurs_in};
use vstd::prelude::*;

verus! {

/// A row of the price list: the part of a model's name that it is for, and its two base rates in
/// units of a ten-thousandth of a dollar per million tokens.
struct PriceRow {
    name: &'static str,
    input: u64,
    output: u64,
}

/// The rates of a model, in units of a ten-thousandth of a dollar per million tokens.
#[derive(Debug, Clone, Copy, PartialEq, Eq, Structural)]
pub struct Rates {
    pub input: u64,
    pub output: u64,
    pub cache_write: u64,
    pub cache_read: u64,
}

/// The rates that a row gives: a cache write costs 1.25 times and a cache read 0.1 times the input.
pub open spec fn rates_of(input: u64, output: u64) -> Rates {
    Rates {
        input,
        output,
        cache_write: (input * 5 / 4) as u64,
        cache_read: (input / 10) as u64,
    }
}

/// The price list. The order matters: the first row whose name occurs in a model's name counts, so
/// that the more specific names stand first.
pub open spec fn price_list() -> Seq<(Seq<char>, Rates)> {
    seq![
        ("fable-5"@, rates_of(100_000, 500_000)),
        ("opus-4-8"@, rates_of(50_000, 250_000)),
        ("opus-4-7"@, rates_of(50_000, 250_000)),
        ("opus-4-6"@, rates_of(50_000, 250_000)),
        ("opus-4-5"@, rates_of(50_000, 250_000)),
        ("opus-4-1"@, rates_of(150_000, 750_000)),
        ("opus-4"@, rates_of(150_000, 750_000)),
        ("3-opus"@, rates_of(150_000, 750_000)),
        ("sonnet"@, rates_of(30_000, 150_000)),
        ("3-5-haiku"@, rates_of(8_000, 40_000)),
        ("3-haiku"@, rates_of(2_500, 12_500)),
        ("haiku-4-5"@, rates_of(10_000, 50_000)),
        ("haiku"@, rates_of(10_000, 50_000)),
    ]
}

/// The rates of the first of some rows whose name occurs in `model`.
pub open spec fn first_match(rows: Seq<(Seq<char>, Rates)>, model: Seq<char>) -> Option<Rates>
    decreases rows.len(),
{
    if rows.len() == 0 {
        None
    } else if occurs_in(model, rows[0].0) {
        Some(rows[0].1)
    } else {
        first_match(rows.skip(1), model)
    }
}

/// The rates of a model, where the list has a row for it.
pub open spec fn rates_for(model: Seq<char>) -> Option<Rates> {
    first_match(price_list(), model)
}

/// What tokens cost at some rates, in units of a ten-billionth of a dollar.
pub open spec fn cost_at(
    rates: Rates,
    input: int,
    output: int,
    cache_write: int,
    cache_read: int,
) -> int {
    input * rates.input + output * rates.output + cache_write * rates.cache_write + cache_read
        * rates.cache_read
}

/// The highest of all rates.
pub const MAX_RATE: u64 = 750_000;

/// Whether no rate is above the highest one.
pub open spec fn bounded(rates: Rates) -> bool {
    &&& rates.input <= MAX_RATE
    &&& rates.output <= MAX_RATE
    &&& rates.cache_write <= MAX_RATE
    &&& rates.cache_read <= MAX_RATE
}

fn row(name: &'static str, input: u64, output: u64) -> (r: PriceRow)
    ensures
        r.name@ == name@,
        r.input == input,
        r.output == output,
{
    PriceRow { name, input, output }
}

/// The price list.
fn prices() -> (r: Vec<PriceRow>)
    ensures
        r@.len() == price_list().len(),
        forall|i: int|
            0 <= i < r@.len() ==> {
                &&& (#[trigger] r@[i]).name@ == price_list()[i].0
                &&& rates_of(r@[i].input, r@[i].output) == price_list()[i].1
                &&& r@[i].input <= 150_000
            },
{
    let mut r: Vec<PriceRow> = Vec::new();
    r.push(row("fable-5", 100_000, 500_000));
    r.push(row("opus-4-8", 50_000, 250_000));
    r.push(row("opus-4-7", 50_000, 250_000));
    r.push(row("opus-4-6", 50_000, 250_000));
    r.push(row("opus-4-5", 50_000, 250_000));
    r.push(row("opus-4-1", 150_000, 750_000));
    r.push(row("opus-4", 150_000, 750_000));
    r.push(row("3-opus", 150_000, 750_000));
    r.push(row("sonnet", 30_000, 150_000));
    r.push(row("3-5-haiku", 8_000, 40_000));
    r.push(row("3-haiku", 2_500, 12_500));
    r.push(row("haiku-4-5", 10_000, 50_000));
    r.push(row("haiku", 10_000, 50_000));
    r
}

/// The rates of a model, where the price list has a row for it.
pub fn model_rates(model: &str) -> (r: Option<Rates>)
    ensures
        r == rates_for(model@),
{
    let chars = chars_of(model);
    let rows = prices();
    let mut i: usize = 0;
    assert(price_list().skip(0) =~= price_list());
    while i < rows.len()
        invariant
            i <= rows@.len(),
            rows@.len() == price_list().len(),
            forall|j: int|
                0 <= j < rows@.len() ==> {
                    &&& (#[trigger] rows@[j]).name@ == price_list()[j].0
                    &&& rates_of(rows@[j].input, rows@[j].output) == price_list()[j].1
                    &&& rows@[j].input <= 150_000
                },
            chars@ == model@,
            first_match(price_list().skip(i as int), model@) == rates_for(model@),
        decreases rows@.len() - i,
    {
        let ghost rest = price_list().skip(i as int);
        assert(rest[0] == price_list()[i as int]);
        assert(rest.skip(1) =~= price_list().skip(i + 1));
        if contains_text(chars.as_slice(), rows[i].name) {
            let input: u64 = rows[i].input;
            return Some(
                Rates {
                    input,
                    output: rows[i].output,
                    cache_write: input * 5 / 4,
                    cache_read: input / 10,
                },
            );
        }
        i = i + 1;
    }
    None
}

/// The rates of a model are within the bounds of the list.
pub proof fn lemma_rates_bounded(rows: Seq<(Seq<char>, Rates)>, model: Seq<char>)
    requires
        forall|i: int| 0 <= i < rows.len() ==> bounded((#[trigger] rows[i]).1),
    ensures
        first_match(rows, model) matches Some(rates) ==> bounded(rates),
    decreases rows.len(),
{
    if rows.len() > 0 {
        assert forall|i: int| 0 <= i < rows.skip(1).len() implies bounded(
            (#[trigger] rows.skip(1)[i]).1,
        ) by {
            assert(rows.skip(1)[i] == rows[i + 1]);
        }
        lemma_rates_bounded(rows.skip(1), model);
    }
}

/// No token costs more than the highest rate.
pub proof fn lemma_cost_bounded(
    rates: Rates,
    input: int,
    output: int,
    cache_write: int,
    cache_read: int,
)
    by (nonlinear_arith)
    requires
        bounded(rates),
        input >= 0,
        output >= 0,
        cache_write >= 0,
        cache_read >= 0,
    ensures
        0 <= input * rates.input <= MAX_RATE * input,
        0 <= output * rates.output <= MAX_RATE * output,
        0 <= cache_write * rates.cache_write <= MAX_RATE * cache_write,
        0 <= cache_read * rates.cache_read <= MAX_RATE * cache_read,
        0 <= cost_at(rates, input, output, cache_write, cache_read) <= MAX_RATE * (input + output
            + cache_write + cache_read),
{
}

/// What some tokens of a model cost; nothing for a model without a price.
pub open spec fn cost_of(
    model: Seq<char>,
    input: u64,
    output: u64,
    cache_write: u64,
    cache_read: u64,
) -> Option<int> {
    match rates_for(model) {
        Some(rates) => Some(
            cost_at(
                rates,
                input as int,
                output as int,
                cache_write as int,
                cache_read as int,
            ),
        ),
        None => None,
    }
}

/// What some tokens of a model cost; nothing for a model without a price.
pub fn cost_usd(model: &str, input: u64, output: u64, cache_write: u64, cache_read: u64) -> (r:
    Option<Usd>)
    ensures
        match cost_of(model@, input, output, cache_write, cache_read) {
            Some(units) => r is Some && r->Some_0.units == units,
            None => r is None,
        },
        r matches Some(c) ==> c.units <= MAX_RATE * (input + output + cache_write + cache_read),
{
    proof {
        lemma_rates_bounded(price_list(), model@);
    }
    match model_rates(model) {
        Some(rates) => {
            proof {
                lemma_cost_bounded(
                    rates,
                    input as int,
                    output as int,
                    cache_write as int,
                    cache_read as int,
                );
            }
            let units: u128 = input as u128 * rates.input as u128 + output as u128
                * rates.output as u128 + cache_write as u128 * rates.cache_write as u128
                + cache_read as u128 * rates.cache_read as u128;
            Some(Usd { units })
        },
        None => None,
    }
}

/// The first row that matches wins: the rates of a model are those of the first row whose name
/// occurs in the model's name, and a model that no row matches has none.
pub proof fn law_first_match_wins(model: Seq<char>)
    ensures
        match rates_for(model) {
            Some(rates) => exists|i: int|
                0 <= i < price_list().len() && (#[trigger] price_list()[i]).1 == rates && occurs_in(
                    model,
                    price_list()[i].0,
                ) && forall|j: int|
                    0 <= j < i ==> !occurs_in(model, (#[trigger] price_list()[j]).0),
            None => forall|i: int|
                0 <= i < price_list().len() ==> !occurs_in(model, (#[trigger] price_list()[i]).0),
        },
{
    lemma_first_match(price_list(), model);
}

proof fn lemma_first_match(rows: Seq<(Seq<char>, Rates)>, model: Seq<char>)
    ensures
        match first_match(rows, model) {
            Some(rates) => exists|i: int|
                0 <= i < rows.len() && (#[trigger] rows[i]).1 == rates && occurs_in(
                    model,
                    rows[i].0,
                ) && forall|j: int| 0 <= j < i ==> !occurs_in(model, (#[trigger] rows[j]).0),
            None => forall|i: int|
                0 <= i < rows.len() ==> !occurs_in(model, (#[trigger] rows[i]).0),
        },
    decreases rows.len(),
{
    if rows.len() > 0 && !occurs_in(model, rows[0].0) {
        let rest = rows.skip(1);
        lemma_first_match(rest, model);
        match first_match(rest, model) {
            Some(rates) => {
                let i = choose|i: int|
                    0 <= i < rest.len() && (#[trigger] rest[i]).1 == rates && occurs_in(
                        model,
                        rest[i].0,
                    ) && forall|j: int| 0 <= j < i ==> !occurs_in(model, (#[trigger] rest[j]).0);
                assert(rows[i + 1] == rest[i]);
                assert forall|j: int| 0 <= j < i + 1 implies !occurs_in(
                    model,
                    (#[trigger] rows[j]).0,
                ) by {
                    if j > 0 {
                        assert(rest[j - 1] == rows[j]);
                    }
                }
            },
            None => {
                assert forall|j: int| 0 <= j < rows.len() implies !occurs_in(
                    model,
                    (#[trigger] rows[j]).0,
                ) by {
                    if j > 0 {
                        assert(rest[j - 1] == rows[j]);
                    }
                }
            },
        }
    }
}

/// For every model with a price, a cache write costs 1.25 times and a cache read 0.1 times as much
/// as an input token.
pub proof fn law_cache_rates(model: Seq<char>, tokens: int)
    requires
        rates_for(model) is Some,
    ensures
        ({
            let rates = rates_for(model)->Some_0;
            let base = cost_at(rates, tokens, 0, 0, 0);
            &&& 4 * cost_at(rates, 0, 0, tokens, 0) == 5 * base
            &&& 10 * cost_at(rates, 0, 0, 0, tokens) == base
        }),
{
    law_first_match_wins(model);
    let rates = rates_for(model)->Some_0;
    assert(4 * rates.cache_write == 5 * rates.input && 10 * rates.cache_read == rates.input);
    assert(4 * (tokens * rates.cache_write) == 5 * (tokens * rates.input)) by (nonlinear_arith)
        requires
            4 * rates.cache_write == 5 * rates.input,
    ;
    assert(10 * (tokens * rates.cache_read) == tokens * rates.input) by (nonlinear_arith)
        requires
            10 * rates.cache_read == rates.input,
    ;
    assert(0 * rates.input == 0 && 0 * rates.output == 0 && 0 * rates.cache_write == 0 && 0
        * rates.cache_read == 0);
}

/// The cost of two usages together is the sum of their costs, at any rates.
pub proof fn law_costs_add_up(
    rates: Rates,
    input: (int, int),
    output: (int, int),
    cache_write: (int, int),
    cache_read: (int, int),
)
    ensures
        cost_at(
            rates,
            input.0 + input.1,
            output.0 + output.1,
            cache_write.0 + cache_write.1,
            cache_read.0 + cache_read.1,
        ) == cost_at(rates, input.0, output.0, cache_write.0, cache_read.0) + cost_at(
            rates,
            input.1,
            output.1,
            cache_write.1,
            cache_read.1,
        ),
{
    lemma_mul_add(input.0, input.1, rates.input as int);
    lemma_mul_add(output.0, output.1, rates.output as int);
    lemma_mul_add(cache_write.0, cache_write.1, rates.cache_write as int);
    lemma_mul_add(cache_read.0, cache_read.1, rates.cache_read as int);
}

proof fn lemma_mul_add(a: int, b: int, c: int)
    by (nonlinear_arith)
    ensures
        (a + b) * c == a * c + b * c,
{
}

/// The price list row by row, in units of a ten-thousandth of a dollar per million tokens of input, of
/// output, written to the cache and read from it. A model has the rates beside the first of these names
/// that occurs in its own, and a model that none of them occurs in has no price.
pub proof fn law_prices_by_name(model: Seq<char>)
    ensures
        ({
            let has = |name: Seq<char>| occurs_in(model, name);
            let at = |input: u64, output: u64, cache_write: u64, cache_read: u64|
                rates_for(model) == Some(Rates { input, output, cache_write, cache_read });
            if has("fable-5"@) {
                at(100_000, 500_000, 125_000, 10_000)
            } else if has("opus-4-8"@) {
                at(50_000, 250_000, 62_500, 5_000)
            } else if has("opus-4-7"@) {
                at(50_000, 250_000, 62_500, 5_000)
            } else if has("opus-4-6"@) {
                at(50_000, 250_000, 62_500, 5_000)
            } else if has("opus-4-5"@) {
                at(50_000, 250_000, 62_500, 5_000)
            } else if has("opus-4-1"@) {
                at(150_000, 750_000, 187_500, 15_000)
            } else if has("opus-4"@) {
                at(150_000, 750_000, 187_500, 15_000)
            } else if has("3-opus"@) {
                at(150_000, 750_000, 187_500, 15_000)
            } else if has("sonnet"@) {
                at(30_000, 150_000, 37_500, 3_000)
            } else if has("3-5-haiku"@) {
                at(8_000, 40_000, 10_000, 800)
            } else if has("3-haiku"@) {
                at(2_500, 12_500, 3_125, 250)
            } else if has("haiku-4-5"@) {
                at(10_000, 50_000, 12_500, 1_000)
            } else if has("haiku"@) {
                at(10_000, 50_000, 12_500, 1_000)
            } else {
                rates_for(model) is None
            }
        }),
{
    lemma_first_match(price_list(), model);
    assert(price_list()[0] == ("fable-5"@, rates_of(100_000, 500_000)));
    assert(price_list()[1] == ("opus-4-8"@, rates_of(50_000, 250_000)));
    assert(price_list()[2] == ("opus-4-7"@, rates_of(50_000, 250_000)));
    assert(price_list()[3] == ("opus-4-6"@, rates_of(50_000, 250_000)));
    assert(price_list()[4] == ("opus-4-5"@, rates_of(50_000, 250_000)));
    assert(price_list()[5] == ("opus-4-1"@, rates_of(150_000, 750_000)));
    assert(price_list()[6] == ("opus-4"@, rates_of(150_000, 750_000)));
    assert(price_list()[7] == ("3-opus"@, rates_of(150_000, 750_000)));
    assert(price_list()[8] == ("sonnet"@, rates_of(30_000, 150_000)));
    assert(price_list()[9] == ("3-5-haiku"@, rates_of(8_000, 40_000)));
    assert(price_list()[10] == ("3-haiku"@, rates_of(2_500, 12_500)));
    assert(price_list()[11] == ("haiku-4-5"@, rates_of(10_000, 50_000)));
    assert(price_list()[12] == ("haiku"@, rates_of(10_000, 50_000)));
}

/// The price list has these thirteen names, in this order, and no others.
pub proof fn law_price_list_names()
    ensures
        price_list().map_values(|row: (Seq<char>, Rates)| row.0) == seq![
            "fable-5"@,
            "opus-4-8"@,
            "opus-4-7"@,
            "opus-4-6"@,
            "opus-4-5"@,
            "opus-4-1"@,
            "opus-4"@,
            "3-opus"@,
            "sonnet"@,
            "3-5-haiku"@,
            "3-haiku"@,
            "haiku-4-5"@,
            "haiku"@,
        ],
{
    assert(price_list().map_values(|row: (Seq<char>, Rates)| row.0) =~= seq![
        "fable-5"@,
        "opus-4-8"@,
        "opus-4-7"@,
        "opus-4-6"@,
        "opus-4-5"@,
        "opus-4-1"@,
        "opus-4"@,
        "3-opus"@,
        "sonnet"@,
        "3-5-haiku"@,
        "3-haiku"@,
        "haiku-4-5"@,
        "haiku"@,
    ]);
}

/// One token of each kind costs its own rate, and no token costs nothing. With the law that costs add
/// up, this says what any number of tokens costs.
pub proof fn law_one_token_costs_its_rate(rates: Rates)
    ensures
        cost_at(rates, 0, 0, 0, 0) == 0,
        cost_at(rates, 1, 0, 0, 0) == rates.input,
        cost_at(rates, 0, 1, 0, 0) == rates.output,
        cost_at(rates, 0, 0, 1, 0) == rates.cache_write,
        cost_at(rates, 0, 0, 0, 1) == rates.cache_read,
{
}

/// A model has a cost exactly where it has rates, whatever the tokens; one more token of a kind costs
/// its rate more.
pub proof fn law_one_more_token_costs_its_rate(
    model: Seq<char>,
    input: u64,
    output: u64,
    cache_write: u64,
    cache_read: u64,
)
    ensures
        cost_of(model, input, output, cache_write, cache_read) is Some <==> rates_for(model) is Some,
        rates_for(model) matches Some(rates) ==> {
            let cost = cost_of(model, input, output, cache_write, cache_read)->0;
            &&& cost_of(model, 0, 0, 0, 0) == Some(0int)
            &&& input < u64::MAX ==> cost_of(
                model,
                (input + 1) as u64,
                output,
                cache_write,
                cache_read,
            ) == Some(cost + rates.input)
            &&& output < u64::MAX ==> cost_of(
                model,
                input,
                (output + 1) as u64,
                cache_write,
                cache_read,
            ) == Some(cost + rates.output)
            &&& cache_write < u64::MAX ==> cost_of(
                model,
                input,
                output,
                (cache_write + 1) as u64,
                cache_read,
            ) == Some(cost + rates.cache_write)
            &&& cache_read < u64::MAX ==> cost_of(
                model,
                input,
                output,
                cache_write,
                (cache_read + 1) as u64,
            ) == Some(cost + rates.cache_read)
        },
{
    if let Some(rates) = rates_for(model) {
        lemma_mul_add(input as int, 1, rates.input as int);
        lemma_mul_add(output as int, 1, rates.output as int);
        lemma_mul_add(cache_write as int, 1, rates.cache_write as int);
        lemma_mul_add(cache_read as int, 1, rates.cache_read as int);
    }
}

} // verus!
