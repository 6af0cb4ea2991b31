use smallvec::SmallVec;
use vstd::prelude::*;

verus! {

/// One provider's single reading: a Unix timestamp in seconds and a
/// temperature in thousandths of a degree Celsius.
#[derive(Clone, Copy, Debug, PartialEq, Eq, Structural)]
pub struct RawPoint {
    pub timestamp: i64,
    pub temperature: i64,
}

/// The forecast for one calendar day: the day (counted from 1970-01-01, UTC)
/// and a temperature in thousandths of a degree Celsius.
#[derive(Clone, Copy, Debug, PartialEq, Eq, Structural)]
pub struct WeatherData {
    pub temperature: i64,
    pub date: i64,
}

/// A sequence of daily forecasts, kept inline while it is short. Verus sees
/// it only through `weather_items` and the functions below.
#[verifier::external_body]
pub struct WeatherDataVec {
    items: SmallVec<[WeatherData; 32]>,
}

/// How many items a series can hold (2^58).
pub const SERIES_CAPACITY: u64 = 0x0400_0000_0000_0000;

/// The daily forecasts that a `WeatherDataVec` holds, in order.
pub uninterp spec fn weather_items(v: WeatherDataVec) -> Seq<WeatherData>;

/// Relies on SmallVec::new: the new vector holds nothing.
#[verifier::external_body]
pub(crate) fn empty_series() -> (r: WeatherDataVec)
    ensures
        weather_items(r) == Seq::<WeatherData>::empty(),
{
    WeatherDataVec { items: SmallVec::new() }
}

/// Relies on SmallVec::push: the item is appended after the others. When it
/// must grow, the new capacity is the next power of two, allocated through
/// `Vec::with_capacity`, which panics beyond `isize::MAX` bytes; below 2^58
/// items of 16 bytes that cannot happen.
#[verifier::external_body]
pub(crate) fn push_item(v: &mut WeatherDataVec, item: WeatherData)
    requires
        weather_items(*old(v)).len() < SERIES_CAPACITY,
    ensures
        weather_items(*final(v)) == weather_items(*old(v)).push(item),
{
    v.items.push(item)
}

/// Relies on SmallVec::len: the number of items held.
#[verifier::external_body]
pub(crate) fn item_count(v: &WeatherDataVec) -> (r: usize)
    ensures
        r == weather_items(*v).len(),
{
    v.items.len()
}

/// Relies on SmallVec's `Index<usize>`: the item at a position inside the vector.
#[verifier::external_body]
pub(crate) fn item_at(v: &WeatherDataVec, i: usize) -> (r: WeatherData)
    requires
        i < weather_items(*v).len(),
    ensures
        r == weather_items(*v)[i as int],
{
    v.items[i]
}

/// Relies on SmallVec's `Clone`: a copy that holds the same items in the same
/// order (`WeatherData` is `Copy`, so each item is cloned to itself).
#[verifier::external_body]
pub(crate) fn copy_series(v: &WeatherDataVec) -> (r: WeatherDataVec)
    ensures
        weather_items(r) == weather_items(*v),
{
    WeatherDataVec { items: v.items.clone() }
}

/// A series holding the given forecasts, in the same order.
pub fn series_from(items: &Vec<WeatherData>) -> (r: WeatherDataVec)
    requires
        items@.len() <= SERIES_CAPACITY,
    ensures
        weather_items(r) == items@,
{
    let mut r = empty_series();
    let mut i: usize = 0;
    while i < items.len()
        invariant
            i <= items@.len(),
            items@.len() <= SERIES_CAPACITY,
            weather_items(r) == items@.take(i as int),
        decreases items@.len() - i,
    {
        push_item(&mut r, items[i]);
        assert(items@.take(i + 1) =~= items@.take(i as int).push(items@[i as int]));
        i = i + 1;
    }
    assert(items@.take(i as int) =~= items@);
    r
}

/// The forecasts of a series, in order, as a `Vec`.
pub fn series_items(series: &WeatherDataVec) -> (r: Vec<WeatherData>)
    ensures
        r@ == weather_items(*series),
{
    let n = item_count(series);
    let mut r: Vec<WeatherData> = Vec::new();
    let mut i: usize = 0;
    while i < n
        invariant
            n == weather_items(*series).len(),
            i <= n,
            r@ == weather_items(*series).take(i as int),
        decreases n - i,
    {
        r.push(item_at(series, i));
        assert(weather_items(*series).take(i + 1) =~= weather_items(*series).take(i as int).push(
            weather_items(*series)[i as int],
        ));
        i = i + 1;
    }
    assert(weather_items(*series).take(n as int) =~= weather_items(*series));
    r
}

} // verus!
