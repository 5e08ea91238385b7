//! Item kinds and the fixed-capacity slotted inventory.
use vstd::prelude::*;
use crate::text::{lemma_split_join, split_fields, split_spec, starts_with, str_eq};

verus! {

/// Number of collectible slots.
pub const ORE_SLOTS: usize = 20;

/// Number of consumable slots.
pub const FOOD_SLOTS: usize = 6;

/// A collectible mined underground.
#[derive(Clone, Copy, Debug, PartialEq, Eq, Structural)]
pub enum Ore {
    IronOre,
    GoldOre,
    Diamond,
}

/// A consumable that restores health.
#[derive(Clone, Copy, Debug, PartialEq, Eq, Structural)]
pub enum Food {
    Apple,
    Chicken,
    Beef,
}

pub open spec fn ore_token(o: Ore) -> Seq<char> {
    match o {
        Ore::IronOre => "Iron Ore"@,
        Ore::GoldOre => "Gold Ore"@,
        Ore::Diamond => "Diamond"@,
    }
}

pub open spec fn food_token(f: Food) -> Seq<char> {
    match f {
        Food::Apple => "Apple"@,
        Food::Chicken => "Chicken"@,
        Food::Beef => "Beef"@,
    }
}

pub open spec fn ore_of_token(s: Seq<char>) -> Option<Ore> {
    if s == "Iron Ore"@ {
        Some(Ore::IronOre)
    } else if s == "Gold Ore"@ {
        Some(Ore::GoldOre)
    } else if s == "Diamond"@ {
        Some(Ore::Diamond)
    } else {
        None
    }
}

pub open spec fn food_of_token(s: Seq<char>) -> Option<Food> {
    if s == "Apple"@ {
        Some(Food::Apple)
    } else if s == "Chicken"@ {
        Some(Food::Chicken)
    } else if s == "Beef"@ {
        Some(Food::Beef)
    } else {
        None
    }
}

/// Index `i` is the first unoccupied slot of `s`.
pub open spec fn first_free_at<T>(s: Seq<Option<T>>, i: int) -> bool {
    0 <= i < s.len() && s[i] is None && forall|j: int| 0 <= j < i ==> (#[trigger] s[j]) is Some
}

pub open spec fn has_free<T>(s: Seq<Option<T>>) -> bool {
    exists|i: int| 0 <= i < s.len() && (#[trigger] s[i]) is None
}

/// `s` after placing `x` in its first unoccupied slot; `s` itself when all are occupied.
pub open spec fn inserted<T>(s: Seq<Option<T>>, x: T) -> Seq<Option<T>> {
    if has_free(s) {
        s.update(choose|i: int| first_free_at(s, i), Some(x))
    } else {
        s
    }
}

/// Number of slots of `s` that hold `o`.
pub open spec fn count_kind<T>(s: Seq<Option<T>>, o: T) -> nat
    decreases s.len(),
{
    if s.len() == 0 {
        0
    } else {
        count_kind(s.drop_last(), o) + if s.last() == Some(o) {
            1nat
        } else {
            0nat
        }
    }
}

pub open spec fn all_empty<T>(s: Seq<Option<T>>) -> bool {
    forall|i: int| 0 <= i < s.len() ==> (#[trigger] s[i]) is None
}

pub open spec fn ore_price(o: Ore) -> nat {
    match o {
        Ore::IronOre => 20,
        Ore::GoldOre => 50,
        Ore::Diamond => 120,
    }
}

/// What selling every collectible of `s` earns.
pub open spec fn sale_value(s: Seq<Option<Ore>>) -> nat {
    count_kind(s, Ore::IronOre) * ore_price(Ore::IronOre) + count_kind(s, Ore::GoldOre)
        * ore_price(Ore::GoldOre) + count_kind(s, Ore::Diamond) * ore_price(Ore::Diamond)
}

/// Inserting into a container whose every slot is occupied leaves it unchanged.
pub proof fn lemma_insert_into_full<T>(s: Seq<Option<T>>, x: T)
    requires
        forall|i: int| 0 <= i < s.len() ==> (#[trigger] s[i]) is Some,
    ensures
        inserted(s, x) == s,
{
}

pub proof fn lemma_first_free_unique<T>(s: Seq<Option<T>>, i: int)
    requires
        first_free_at(s, i),
    ensures
        has_free(s),
        (choose|k: int| first_free_at(s, k)) == i,
{
    assert(s[i] is None);
    let k = choose|k: int| first_free_at(s, k);
    assert(first_free_at(s, k));
    if k < i {
        assert(s[k] is Some);
    } else if i < k {
        assert(s[i] is Some);
    }
}

pub proof fn lemma_count_bound<T>(s: Seq<Option<T>>, o: T)
    ensures
        count_kind(s, o) <= s.len(),
    decreases s.len(),
{
    if s.len() > 0 {
        lemma_count_bound(s.drop_last(), o);
    }
}

pub proof fn lemma_count_empty<T>(s: Seq<Option<T>>, o: T)
    requires
        all_empty(s),
    ensures
        count_kind(s, o) == 0,
    decreases s.len(),
{
    if s.len() > 0 {
        assert(s.last() == s[s.len() - 1]);
        lemma_count_empty(s.drop_last(), o);
    }
}

pub struct Inventory {
    pub ores: [Option<Ore>; ORE_SLOTS],
    pub foods: [Option<Food>; FOOD_SLOTS],
}

impl Ore {
    /// The label of this kind, also its token in stored records.
    pub fn to_string(&self) -> (r: &str)
        ensures
            r@ == ore_token(*self),
    {
        match self {
            Ore::IronOre => "Iron Ore",
            Ore::GoldOre => "Gold Ore",
            Ore::Diamond => "Diamond",
        }
    }

    pub fn from_string(string: &str) -> (r: Option<Ore>)
        ensures
            r == ore_of_token(string@),
    {
        if str_eq(string, "Iron Ore") {
            Some(Ore::IronOre)
        } else if str_eq(string, "Gold Ore") {
            Some(Ore::GoldOre)
        } else if str_eq(string, "Diamond") {
            Some(Ore::Diamond)
        } else {
            None
        }
    }
}

impl Food {
    /// The label of this kind, also its token in stored records.
    pub fn to_string(&self) -> (r: &str)
        ensures
            r@ == food_token(*self),
    {
        match self {
            Food::Apple => "Apple",
            Food::Chicken => "Chicken",
            Food::Beef => "Beef",
        }
    }

    pub fn from_string(string: &str) -> (r: Option<Food>)
        ensures
            r == food_of_token(string@),
    {
        if str_eq(string, "Apple") {
            Some(Food::Apple)
        } else if str_eq(string, "Chicken") {
            Some(Food::Chicken)
        } else if str_eq(string, "Beef") {
            Some(Food::Beef)
        } else {
            None
        }
    }
}

impl Inventory {
    pub fn create_empty() -> (r: Self)
        ensures
            all_empty(r.ores@),
            all_empty(r.foods@),
    {
        Inventory { ores: [None; ORE_SLOTS], foods: [None; FOOD_SLOTS] }
    }

    /// Places `food` in the first free consumable slot; does nothing when all are taken.
    pub fn push_food(&mut self, food: Food)
        ensures
            final(self).foods@ == inserted(old(self).foods@, food),
            final(self).ores == old(self).ores,
    {
        let mut i: usize = 0;
        while i < FOOD_SLOTS
            invariant
                i <= FOOD_SLOTS,
                self.ores == old(self).ores,
                self.foods == old(self).foods,
                forall|j: int| 0 <= j < i ==> (#[trigger] self.foods@[j]) is Some,
            decreases FOOD_SLOTS - i,
        {
            if self.foods[i].is_none() {
                proof {
                    lemma_first_free_unique(self.foods@, i as int);
                }
                self.foods[i] = Some(food);
                return;
            }
            i = i + 1;
        }
        assert(!has_free(old(self).foods@));
    }

    /// Places `ore` in the first free collectible slot; does nothing when all are taken.
    pub fn push_ore(&mut self, ore: Ore)
        ensures
            final(self).ores@ == inserted(old(self).ores@, ore),
            final(self).foods == old(self).foods,
    {
        let mut i: usize = 0;
        while i < ORE_SLOTS
            invariant
                i <= ORE_SLOTS,
                self.ores == old(self).ores,
                self.foods == old(self).foods,
                forall|j: int| 0 <= j < i ==> (#[trigger] self.ores@[j]) is Some,
            decreases ORE_SLOTS - i,
        {
            if self.ores[i].is_none() {
                proof {
                    lemma_first_free_unique(self.ores@, i as int);
                }
                self.ores[i] = Some(ore);
                return;
            }
            i = i + 1;
        }
        assert(!has_free(old(self).ores@));
    }

    /// Whether some consumable slot is free.
    pub fn has_free_food_slot(&self) -> (r: bool)
        ensures
            r == has_free(self.foods@),
    {
        let mut i: usize = 0;
        while i < FOOD_SLOTS
            invariant
                i <= FOOD_SLOTS,
                forall|j: int| 0 <= j < i ==> (#[trigger] self.foods@[j]) is Some,
            decreases FOOD_SLOTS - i,
        {
            if self.foods[i].is_none() {
                return true;
            }
            i = i + 1;
        }
        false
    }

    /// How many collectible slots hold `kind`.
    pub fn count_ore(&self, kind: Ore) -> (r: u32)
        ensures
            r == count_kind(self.ores@, kind),
    {
        let mut n: u32 = 0;
        let mut i: usize = 0;
        while i < ORE_SLOTS
            invariant
                i <= ORE_SLOTS,
                n == count_kind(self.ores@.subrange(0, i as int), kind),
            decreases ORE_SLOTS - i,
        {
            proof {
                let p = self.ores@.subrange(0, i + 1);
                assert(p.drop_last() =~= self.ores@.subrange(0, i as int));
                assert(p.last() == self.ores@[i as int]);
                lemma_count_bound(self.ores@.subrange(0, i as int), kind);
            }
            if self.ores[i] == Some(kind) {
                n = n + 1;
            }
            i = i + 1;
        }
        assert(self.ores@.subrange(0, ORE_SLOTS as int) =~= self.ores@);
        n
    }

    /// What selling every collectible would earn.
    pub fn ore_sale_value(&self) -> (r: u32)
        ensures
            r == sale_value(self.ores@),
    {
        let iron = self.count_ore(Ore::IronOre);
        let gold = self.count_ore(Ore::GoldOre);
        let diamond = self.count_ore(Ore::Diamond);
        proof {
            lemma_count_bound(self.ores@, Ore::IronOre);
            lemma_count_bound(self.ores@, Ore::GoldOre);
            lemma_count_bound(self.ores@, Ore::Diamond);
        }
        iron * 20 + gold * 50 + diamond * 120
    }

    /// Empties every collectible slot.
    pub fn clear_ores(&mut self)
        ensures
            all_empty(final(self).ores@),
            final(self).foods == old(self).foods,
    {
        self.ores = [None; ORE_SLOTS];
    }
}

/// Slots after loading the tokens `toks` of a record into an empty inventory.
pub open spec fn load_ores(toks: Seq<Seq<char>>) -> Seq<Option<Ore>>
    decreases toks.len(),
{
    if toks.len() == 0 {
        Seq::new(ORE_SLOTS as nat, |i: int| None)
    } else {
        let p = load_ores(toks.drop_last());
        let t = toks.last();
        if food_of_token(t) is None && ore_of_token(t) is Some {
            inserted(p, ore_of_token(t)->Some_0)
        } else {
            p
        }
    }
}

pub open spec fn load_foods(toks: Seq<Seq<char>>) -> Seq<Option<Food>>
    decreases toks.len(),
{
    if toks.len() == 0 {
        Seq::new(FOOD_SLOTS as nat, |i: int| None)
    } else {
        let p = load_foods(toks.drop_last());
        let t = toks.last();
        if food_of_token(t) is Some {
            inserted(p, food_of_token(t)->Some_0)
        } else {
            p
        }
    }
}

/// The tokens of the occupied collectible slots of `s`, in slot order.
pub open spec fn ore_token_list(s: Seq<Option<Ore>>) -> Seq<Seq<char>>
    decreases s.len(),
{
    if s.len() == 0 {
        Seq::empty()
    } else {
        let p = ore_token_list(s.drop_last());
        match s.last() {
            Some(o) => p.push(ore_token(o)),
            None => p,
        }
    }
}

/// Each occupied collectible slot of `s` as its token followed by `;`.
pub open spec fn ore_tokens_text(s: Seq<Option<Ore>>) -> Seq<char>
    decreases s.len(),
{
    if s.len() == 0 {
        Seq::empty()
    } else {
        let p = ore_tokens_text(s.drop_last());
        match s.last() {
            Some(o) => p + ore_token(o) + seq![';'],
            None => p,
        }
    }
}

/// The record line of an inventory: the username, then each collectible's token,
/// each followed by `;`.
pub open spec fn inventory_line(username: Seq<char>, s: Seq<Option<Ore>>) -> Seq<char> {
    username + seq![';'] + ore_tokens_text(s)
}

pub open spec fn occupied(s: Seq<Option<Ore>>) -> nat {
    count_kind(s, Ore::IronOre) + count_kind(s, Ore::GoldOre) + count_kind(s, Ore::Diamond)
}

/// Reads an inventory from its record line: each food token fills a food slot and each
/// collectible token a collectible slot, in order; other fields are ignored.
pub fn parse_inventory_string(inventory_string: &str) -> (r: Result<Inventory, &'static str>)
    ensures
        r is Ok,
        r->Ok_0.ores@ == load_ores(split_spec(inventory_string@, ';')),
        r->Ok_0.foods@ == load_foods(split_spec(inventory_string@, ';')),
{
    let tokens = split_fields(inventory_string, ';');
    let ghost toks = split_spec(inventory_string@, ';');
    let mut inventory = Inventory::create_empty();
    assert(inventory.ores@ =~= load_ores(toks.subrange(0, 0)));
    assert(inventory.foods@ =~= load_foods(toks.subrange(0, 0)));
    let mut i: usize = 0;
    while i < tokens.len()
        invariant
            i <= tokens@.len() == toks.len(),
            tokens@.map_values(|f: String| f@) == toks,
            inventory.ores@ == load_ores(toks.subrange(0, i as int)),
            inventory.foods@ == load_foods(toks.subrange(0, i as int)),
        decreases tokens@.len() - i,
    {
        let token = tokens[i].as_str();
        proof {
            assert(token@ == toks[i as int]);
            let q = toks.subrange(0, i + 1);
            assert(q.drop_last() =~= toks.subrange(0, i as int));
            assert(q.last() == toks[i as int]);
        }
        if let Some(food) = Food::from_string(token) {
            inventory.push_food(food);
        } else if let Some(ore) = Ore::from_string(token) {
            inventory.push_ore(ore);
        }
        i = i + 1;
    }
    assert(toks.subrange(0, toks.len() as int) =~= toks);
    Ok(inventory)
}

/// The inventory of `username` among record lines: the first line that begins with the
/// name, read as a record; an empty inventory where none does.
pub fn find_inventory(lines: &Vec<String>, username: &str) -> (r: Inventory)
    ensures
        (exists|i: int| 0 <= i < lines@.len() && is_prefix(username@, (#[trigger] lines@[i])@))
            ==> ({
            let i = choose|i: int|
                0 <= i < lines@.len() && is_prefix(username@, (#[trigger] lines@[i])@) && forall|
                    j: int,
                | 0 <= j < i ==> !is_prefix(username@, (#[trigger] lines@[j])@);
            &&& r.ores@ == load_ores(split_spec(lines@[i]@, ';'))
            &&& r.foods@ == load_foods(split_spec(lines@[i]@, ';'))
        }),
        !(exists|i: int| 0 <= i < lines@.len() && is_prefix(username@, (#[trigger] lines@[i])@))
            ==> all_empty(r.ores@) && all_empty(r.foods@),
{
    let mut i: usize = 0;
    while i < lines.len()
        invariant
            i <= lines@.len(),
            forall|j: int| 0 <= j < i ==> !is_prefix(username@, (#[trigger] lines@[j])@),
        decreases lines@.len() - i,
    {
        if starts_with(lines[i].as_str(), username) {
            let ghost k = choose|k: int|
                0 <= k < lines@.len() && is_prefix(username@, (#[trigger] lines@[k])@) && forall|
                    j: int,
                | 0 <= j < k ==> !is_prefix(username@, (#[trigger] lines@[j])@);
            assert(0 <= i < lines@.len() && is_prefix(username@, lines@[i as int]@) && forall|
                j: int,
            | 0 <= j < i ==> !is_prefix(username@, (#[trigger] lines@[j])@));
            proof {
                if k < i {
                    assert(!is_prefix(username@, lines@[k]@));
                } else if i < k {
                    assert(!is_prefix(username@, lines@[i as int]@));
                }
            }
            let r = parse_inventory_string(lines[i].as_str());
            return match r {
                Ok(inv) => inv,
                Err(_) => Inventory::create_empty(),
            };
        }
        i = i + 1;
    }
    Inventory::create_empty()
}

pub open spec fn is_prefix(p: Seq<char>, s: Seq<char>) -> bool {
    p.len() <= s.len() && s.subrange(0, p.len() as int) == p
}

/// The record line of the collectibles of `username`, without a line terminator.
pub fn inventory_record(username: &String, inventory: &Inventory) -> (r: String)
    ensures
        r@ == inventory_line(username@, inventory.ores@),
{
    let mut out = username.clone();
    out.append(";");
    proof {
        reveal_strlit(";");
        assert(inventory.ores@.subrange(0, 0) =~= Seq::<Option<Ore>>::empty());
    }
    let mut i: usize = 0;
    while i < ORE_SLOTS
        invariant
            i <= ORE_SLOTS,
            ";"@ == seq![';'],
            out@ == username@ + seq![';'] + ore_tokens_text(inventory.ores@.subrange(0, i as int)),
        decreases ORE_SLOTS - i,
    {
        proof {
            let q = inventory.ores@.subrange(0, i + 1);
            assert(q.drop_last() =~= inventory.ores@.subrange(0, i as int));
            assert(q.last() == inventory.ores@[i as int]);
        }
        if let Some(ore) = inventory.ores[i] {
            out.append(ore.to_string());
            out.append(";");
            assert(out@ =~= username@ + seq![';'] + ore_tokens_text(
                inventory.ores@.subrange(0, i + 1),
            ));
        }
        i = i + 1;
    }
    assert(inventory.ores@.subrange(0, ORE_SLOTS as int) =~= inventory.ores@);
    out
}

proof fn lemma_token_facts()
    ensures
        forall|o: Ore| #![auto] !ore_token(o).contains(';'),
        forall|o: Ore| #![auto] ore_of_token(ore_token(o)) == Some(o),
        forall|o: Ore| #![auto] food_of_token(ore_token(o)) is None,
        ore_of_token(Seq::empty()) is None,
        food_of_token(Seq::empty()) is None,
{
    reveal_strlit("Iron Ore");
    reveal_strlit("Gold Ore");
    reveal_strlit("Diamond");
    reveal_strlit("Apple");
    reveal_strlit("Chicken");
    reveal_strlit("Beef");
    assert("Iron Ore"@[0] != "Gold Ore"@[0]);
    assert("Iron Ore"@[0] != "Diamond"@[0]);
    assert("Gold Ore"@[0] != "Diamond"@[0]);
    assert("Iron Ore"@.len() != "Apple"@.len());
    assert("Iron Ore"@.len() != "Chicken"@.len());
    assert("Iron Ore"@.len() != "Beef"@.len());
    assert("Gold Ore"@.len() != "Apple"@.len());
    assert("Gold Ore"@.len() != "Chicken"@.len());
    assert("Gold Ore"@.len() != "Beef"@.len());
    assert("Diamond"@.len() != "Apple"@.len());
    assert("Diamond"@[0] != "Chicken"@[0]);
    assert("Diamond"@.len() != "Beef"@.len());
    assert forall|o: Ore| #![auto] !ore_token(o).contains(';') by {
        let t = ore_token(o);
        if t.contains(';') {
            let i = choose|i: int| 0 <= i < t.len() && t[i] == ';';
            assert(0 <= i < 8);
        }
    }
}

/// Appending text without the separator lengthens the last field.
pub proof fn lemma_split_append(a: Seq<char>, b: Seq<char>, sep: char)
    requires
        !b.contains(sep),
    ensures
        split_spec(a + b, sep) == split_spec(a, sep).update(
            split_spec(a, sep).len() - 1,
            split_spec(a, sep).last() + b,
        ),
    decreases b.len(),
{
    crate::text::lemma_split_nonempty(a, sep);
    let p = split_spec(a, sep);
    if b.len() == 0 {
        assert(a + b =~= a);
        assert(p.last() + b =~= p.last());
        assert(p.update(p.len() - 1, p.last()) =~= p);
    } else {
        let b0 = b.drop_last();
        assert(!b0.contains(sep)) by {
            if b0.contains(sep) {
                let i = choose|i: int| 0 <= i < b0.len() && b0[i] == sep;
                assert(b[i] == sep);
            }
        }
        assert(b.last() != sep) by {
            assert(b[b.len() - 1] == b.last());
        }
        lemma_split_append(a, b0, sep);
        assert((a + b).drop_last() =~= a + b0);
        assert((a + b).last() == b.last());
        assert((p.last() + b0).push(b.last()) =~= p.last() + b);
        let q = p.update(p.len() - 1, p.last() + b0);
        assert(q.last() == p.last() + b0);
        assert(q.update(q.len() - 1, q.last().push(b.last())) =~= p.update(p.len() - 1, p.last() + b));
    }
}

proof fn lemma_split_tokens_text(s: Seq<Option<Ore>>)
    ensures
        split_spec(ore_tokens_text(s), ';') == ore_token_list(s).push(Seq::empty()),
    decreases s.len(),
{
    lemma_token_facts();
    if s.len() == 0 {
        assert(split_spec(Seq::<char>::empty(), ';') =~= seq![Seq::<char>::empty()]);
        assert(ore_token_list(s).push(Seq::empty()) =~= seq![Seq::<char>::empty()]);
    } else {
        lemma_split_tokens_text(s.drop_last());
        let t0 = ore_tokens_text(s.drop_last());
        let l0 = ore_token_list(s.drop_last());
        if let Some(o) = s.last() {
            let tok = ore_token(o);
            lemma_split_append(t0, tok, ';');
            lemma_split_join(t0 + tok, Seq::empty(), ';');
            assert(t0 + tok + seq![';'] + Seq::<char>::empty() =~= t0 + tok + seq![';']);
            assert(split_spec(Seq::<char>::empty(), ';') =~= seq![Seq::<char>::empty()]);
            let p = l0.push(Seq::<char>::empty());
            assert(p.update(p.len() - 1, p.last() + tok) =~= l0.push(tok));
            assert(l0.push(tok) + seq![Seq::<char>::empty()] =~= l0.push(tok).push(Seq::empty()));
        }
    }
}

proof fn lemma_count_insert(s: Seq<Option<Ore>>, i: int, a: Ore, o: Ore)
    requires
        0 <= i < s.len(),
        s[i] is None,
    ensures
        count_kind(s.update(i, Some(a)), o) == count_kind(s, o) + if a == o {
            1nat
        } else {
            0nat
        },
    decreases s.len(),
{
    let u = s.update(i, Some(a));
    if i == s.len() - 1 {
        assert(u.drop_last() =~= s.drop_last());
        assert(s.last() == s[i]);
    } else {
        lemma_count_insert(s.drop_last(), i, a, o);
        assert(u.drop_last() =~= s.drop_last().update(i, Some(a)));
        assert(u.last() == s.last());
    }
}

proof fn lemma_free_when_not_full(s: Seq<Option<Ore>>)
    requires
        occupied(s) < s.len(),
    ensures
        has_free(s),
    decreases s.len(),
{
    let p = s.drop_last();
    assert(s.last() == s[s.len() - 1]);
    if s.last() is Some {
        assert(count_kind(s, Ore::IronOre) == count_kind(p, Ore::IronOre) + if s.last() == Some(Ore::IronOre) { 1nat } else { 0nat });
        assert(count_kind(s, Ore::GoldOre) == count_kind(p, Ore::GoldOre) + if s.last() == Some(Ore::GoldOre) { 1nat } else { 0nat });
        assert(count_kind(s, Ore::Diamond) == count_kind(p, Ore::Diamond) + if s.last() == Some(Ore::Diamond) { 1nat } else { 0nat });
        match s.last()->Some_0 {
            Ore::IronOre => {},
            Ore::GoldOre => {},
            Ore::Diamond => {},
        }
        assert(occupied(s) == occupied(p) + 1);
        lemma_free_when_not_full(p);
        let i = choose|i: int| 0 <= i < p.len() && (#[trigger] p[i]) is None;
        assert(s[i] == p[i]);
    } else {
        assert(s[s.len() - 1] is None);
    }
}

/// No field of `fields` names an item kind.
pub open spec fn no_item_tokens(fields: Seq<Seq<char>>) -> bool {
    forall|i: int|
        0 <= i < fields.len() ==> ore_of_token(#[trigger] fields[i]) is None && food_of_token(
            fields[i],
        ) is None
}

proof fn lemma_load_plain(p: Seq<Seq<char>>)
    requires
        no_item_tokens(p),
    ensures
        load_ores(p) == Seq::new(ORE_SLOTS as nat, |i: int| None::<Ore>),
        load_foods(p) == Seq::new(FOOD_SLOTS as nat, |i: int| None::<Food>),
    decreases p.len(),
{
    if p.len() > 0 {
        let q = p.drop_last();
        assert(no_item_tokens(q)) by {
            assert forall|i: int| 0 <= i < q.len() implies ore_of_token(#[trigger] q[i]) is None
                && food_of_token(q[i]) is None by {
                assert(q[i] == p[i]);
            }
        }
        assert(p.last() == p[p.len() - 1]);
        lemma_load_plain(q);
    }
}

proof fn lemma_load_prefix(p: Seq<Seq<char>>, s: Seq<Option<Ore>>)
    requires
        s.len() <= ORE_SLOTS,
        no_item_tokens(p),
    ensures
        load_ores(p + ore_token_list(s)).len() == ORE_SLOTS,
        forall|o: Ore| #![auto] count_kind(load_ores(p + ore_token_list(s)), o) == count_kind(s, o),
        load_foods(p + ore_token_list(s)) == load_foods(p),
    decreases s.len(),
{
    lemma_token_facts();
    lemma_load_plain(p);
    let x = load_ores(p + ore_token_list(s));
    if s.len() == 0 {
        assert(p + ore_token_list(s) =~= p);
        assert forall|o: Ore| #![auto] count_kind(x, o) == count_kind(s, o) by {
            lemma_count_empty(x, o);
        }
    } else {
        let s0 = s.drop_last();
        lemma_load_prefix(p, s0);
        let x0 = load_ores(p + ore_token_list(s0));
        match s.last() {
            Some(a) => {
                assert((p + ore_token_list(s)).drop_last() =~= p + ore_token_list(s0));
                assert((p + ore_token_list(s)).last() == ore_token(a));
                assert(occupied(s0) <= s0.len()) by {
                    lemma_count_le_occupied(s0);
                }
                lemma_free_when_not_full(x0);
                lemma_exists_first_free(x0);
                let i = choose|i: int| first_free_at(x0, i);
                assert(x == inserted(x0, a));
                lemma_first_free_unique(x0, i);
                assert forall|o: Ore| #![auto] count_kind(x, o) == count_kind(s, o) by {
                    lemma_count_insert(x0, i, a, o);
                }
            },
            None => {
                assert(p + ore_token_list(s) =~= p + ore_token_list(s0));
            },
        }
    }
}

proof fn lemma_count_le_occupied(s: Seq<Option<Ore>>)
    ensures
        occupied(s) <= s.len(),
    decreases s.len(),
{
    if s.len() > 0 {
        lemma_count_le_occupied(s.drop_last());
    }
}

proof fn lemma_exists_first_free(s: Seq<Option<Ore>>)
    requires
        has_free(s),
    ensures
        exists|i: int| first_free_at(s, i),
    decreases s.len(),
{
    let p = s.drop_last();
    if has_free(p) {
        lemma_exists_first_free(p);
        let i = choose|i: int| first_free_at(p, i);
        assert forall|j: int| 0 <= j < i implies (#[trigger] s[j]) is Some by {
            assert(s[j] == p[j]);
        }
        assert(s[i] == p[i]);
        assert(first_free_at(s, i));
    } else {
        let k = choose|k: int| 0 <= k < s.len() && (#[trigger] s[k]) is None;
        if k < s.len() - 1 {
            assert(p[k] is None);
        }
        assert forall|j: int| 0 <= j < s.len() - 1 implies (#[trigger] s[j]) is Some by {
            assert(s[j] == p[j]);
            if p[j] is None {
                assert(has_free(p));
            }
        }
        assert(first_free_at(s, s.len() - 1));
    }
}

/// Writing the collectibles' record line and reading it back gives the same number of
/// each kind and no food, whenever no `;`-separated field of the username names an item.
pub proof fn lemma_inventory_round_trip(username: Seq<char>, ores: Seq<Option<Ore>>)
    requires
        ores.len() == ORE_SLOTS,
        no_item_tokens(split_spec(username, ';')),
    ensures
        forall|o: Ore|
            count_kind(load_ores(split_spec(inventory_line(username, ores), ';')), o)
                == #[trigger] count_kind(ores, o),
        all_empty(load_foods(split_spec(inventory_line(username, ores), ';'))),
{
    lemma_token_facts();
    lemma_split_tokens_text(ores);
    lemma_split_join(username, ore_tokens_text(ores), ';');
    let p = split_spec(username, ';');
    let toks = split_spec(inventory_line(username, ores), ';');
    let l = ore_token_list(ores);
    assert(toks =~= (p + l).push(Seq::empty()));
    assert(toks.drop_last() =~= p + l);
    assert(toks.last() == Seq::<char>::empty());
    lemma_load_prefix(p, ores);
    lemma_load_plain(p);
}

} // verus!
