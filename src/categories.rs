//! The fixed list of taste categories used to tag drinks.
use vstd::prelude::*;

verus! {

/// All supported taste profiles for drinks, in their canonical order.
#[derive(Clone, Copy, Debug, PartialEq, Eq, Structural)]
pub enum TasteCategories {
    SWEET,
    SOUR,
    BITTER,
    SALTY,
    UMAMI,
    FRUITY,
    FLORAL,
    SPICY,
    CREAMY,
    TART,
    REFRESHING,
    RICH,
    LIGHT,
    EARTHY,
    CITRUSY,
    HERBAL,
    MILKY,
}

/// The variants in declaration order.
pub open spec fn all_tastes() -> Seq<TasteCategories> {
    seq![
        TasteCategories::SWEET,
        TasteCategories::SOUR,
        TasteCategories::BITTER,
        TasteCategories::SALTY,
        TasteCategories::UMAMI,
        TasteCategories::FRUITY,
        TasteCategories::FLORAL,
        TasteCategories::SPICY,
        TasteCategories::CREAMY,
        TasteCategories::TART,
        TasteCategories::REFRESHING,
        TasteCategories::RICH,
        TasteCategories::LIGHT,
        TasteCategories::EARTHY,
        TasteCategories::CITRUSY,
        TasteCategories::HERBAL,
        TasteCategories::MILKY,
    ]
}

impl TasteCategories {
    /// The name of a variant, spelled as the variant itself.
    pub open spec fn spec_name(self) -> Seq<char> {
        match self {
            TasteCategories::SWEET => "SWEET"@,
            TasteCategories::SOUR => "SOUR"@,
            TasteCategories::BITTER => "BITTER"@,
            TasteCategories::SALTY => "SALTY"@,
            TasteCategories::UMAMI => "UMAMI"@,
            TasteCategories::FRUITY => "FRUITY"@,
            TasteCategories::FLORAL => "FLORAL"@,
            TasteCategories::SPICY => "SPICY"@,
            TasteCategories::CREAMY => "CREAMY"@,
            TasteCategories::TART => "TART"@,
            TasteCategories::REFRESHING => "REFRESHING"@,
            TasteCategories::RICH => "RICH"@,
            TasteCategories::LIGHT => "LIGHT"@,
            TasteCategories::EARTHY => "EARTHY"@,
            TasteCategories::CITRUSY => "CITRUSY"@,
            TasteCategories::HERBAL => "HERBAL"@,
            TasteCategories::MILKY => "MILKY"@,
        }
    }

    /// The name of this category.
    pub fn as_str(&self) -> (r: &'static str)
        ensures
            r@ == self.spec_name(),
    {
        match self {
            TasteCategories::SWEET => "SWEET",
            TasteCategories::SOUR => "SOUR",
            TasteCategories::BITTER => "BITTER",
            TasteCategories::SALTY => "SALTY",
            TasteCategories::UMAMI => "UMAMI",
            TasteCategories::FRUITY => "FRUITY",
            TasteCategories::FLORAL => "FLORAL",
            TasteCategories::SPICY => "SPICY",
            TasteCategories::CREAMY => "CREAMY",
            TasteCategories::TART => "TART",
            TasteCategories::REFRESHING => "REFRESHING",
            TasteCategories::RICH => "RICH",
            TasteCategories::LIGHT => "LIGHT",
            TasteCategories::EARTHY => "EARTHY",
            TasteCategories::CITRUSY => "CITRUSY",
            TasteCategories::HERBAL => "HERBAL",
            TasteCategories::MILKY => "MILKY",
        }
    }

    /// Every category, in declaration order.
    pub fn all() -> (r: Vec<TasteCategories>)
        ensures
            r@ == all_tastes(),
    {
        let r = vec![
            TasteCategories::SWEET,
            TasteCategories::SOUR,
            TasteCategories::BITTER,
            TasteCategories::SALTY,
            TasteCategories::UMAMI,
            TasteCategories::FRUITY,
            TasteCategories::FLORAL,
            TasteCategories::SPICY,
            TasteCategories::CREAMY,
            TasteCategories::TART,
            TasteCategories::REFRESHING,
            TasteCategories::RICH,
            TasteCategories::LIGHT,
            TasteCategories::EARTHY,
            TasteCategories::CITRUSY,
            TasteCategories::HERBAL,
            TasteCategories::MILKY,
        ];
        assert(r@ =~= all_tastes());
        r
    }
}

/// The names of all taste categories, in declaration order.
pub fn taste_names() -> (r: Vec<String>)
    ensures
        r@.len() == all_tastes().len(),
        forall|i: int| 0 <= i < r@.len() ==> (#[trigger] r@[i])@ == all_tastes()[i].spec_name(),
{
    let tastes = TasteCategories::all();
    let mut names: Vec<String> = Vec::new();
    let mut i: usize = 0;
    while i < tastes.len()
        invariant
            tastes@ == all_tastes(),
            i <= tastes@.len(),
            names@.len() == i,
            forall|j: int| 0 <= j < i ==> (#[trigger] names@[j])@ == all_tastes()[j].spec_name(),
        decreases tastes@.len() - i,
    {
        let name = tastes[i].as_str().to_owned();
        names.push(name);
        i = i + 1;
    }
    names
}

} // verus!
