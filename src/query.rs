use vstd::prelude::*;

verus! {

/// What a query is keyed by: the country and the city, verbatim.
pub type QueryKey = (Seq<char>, Seq<char>);

/// A request for everything known about a city in some country. Both strings
/// are used verbatim, with no normalisation of case or whitespace.
#[derive(Debug, PartialEq, Eq, Hash)]
pub struct WeatherQuery {
    country: String,
    city: String,
}

impl View for WeatherQuery {
    type V = QueryKey;

    closed spec fn view(&self) -> QueryKey {
        (self.country@, self.city@)
    }
}

impl WeatherQuery {
    pub fn new(country: String, city: String) -> (r: Self)
        ensures
            r@ == (country@, city@),
    {
        Self { country, city }
    }

    pub fn country(&self) -> (r: &String)
        ensures
            r@ == self@.0,
    {
        &self.country
    }

    pub fn city(&self) -> (r: &String)
        ensures
            r@ == self@.1,
    {
        &self.city
    }

    /// Whether two queries name the same country and city, character for character.
    pub fn same_as(&self, other: &WeatherQuery) -> (r: bool)
        ensures
            r == (self@ == other@),
    {
        self.country == other.country && self.city == other.city
    }

    /// A copy with the same country and city.
    pub fn duplicate(&self) -> (r: WeatherQuery)
        ensures
            r@ == self@,
    {
        WeatherQuery { country: self.country.clone(), city: self.city.clone() }
    }
}

} // verus!
