//! The structured recipe that the backend is asked to produce, and its
//! mapping to and from the JSON document model.
//!
//! A recipe serializes to an object with one member per field, in a fixed
//! order, with `null` for an absent optional field. Parsing accepts a
//! missing member or `null` for an optional field and requires `title`,
//! `ingredients` and `steps`; a member of the wrong type is a shape error,
//! never a silently substituted default.

use vstd::prelude::*;

use crate::json::{Json, Jv};

verus! {

/// One step of a recipe.
#[derive(Debug, Clone, PartialEq, Eq)]
pub struct RecipeStep {
    pub description: String,
    /// URL of an illustration.
    pub image: Option<String>,
    /// ISO-8601 duration text.
    pub duration: Option<String>,
}

/// Free-text nutrition facts; units are whatever the backend wrote.
#[derive(Debug, Clone, PartialEq, Eq)]
pub struct NutritionInfo {
    pub calories: Option<String>,
    pub fat_content: Option<String>,
    pub carbohydrate_content: Option<String>,
    pub protein_content: Option<String>,
    pub fiber_content: Option<String>,
    pub sugar_content: Option<String>,
}

/// A generated recipe. Only `title`, `ingredients` and `steps` are required;
/// every other field may be absent, which means "omit from display".
#[derive(Debug, Clone, PartialEq, Eq)]
pub struct Recipe {
    pub title: String,
    pub description: Option<String>,
    pub author: Option<String>,
    /// ISO-8601 duration text.
    pub prep_time: Option<String>,
    /// ISO-8601 duration text.
    pub cook_time: Option<String>,
    /// ISO-8601 duration text.
    pub total_time: Option<String>,
    /// For example "4 servings".
    pub yield_amount: Option<String>,
    pub article: Option<String>,
    pub ingredients: Vec<String>,
    pub steps: Vec<RecipeStep>,
    /// URL of an illustration.
    pub image: Option<String>,
    pub tags: Option<Vec<String>>,
    pub nutrition: Option<NutritionInfo>,
}

/// The spec-level view of one step.
pub struct RecipeStepV {
    pub description: Seq<char>,
    pub image: Option<Seq<char>>,
    pub duration: Option<Seq<char>>,
}

/// The spec-level view of the nutrition facts.
pub struct NutritionInfoV {
    pub calories: Option<Seq<char>>,
    pub fat_content: Option<Seq<char>>,
    pub carbohydrate_content: Option<Seq<char>>,
    pub protein_content: Option<Seq<char>>,
    pub fiber_content: Option<Seq<char>>,
    pub sugar_content: Option<Seq<char>>,
}

/// The spec-level view of a recipe.
pub struct RecipeV {
    pub title: Seq<char>,
    pub description: Option<Seq<char>>,
    pub author: Option<Seq<char>>,
    pub prep_time: Option<Seq<char>>,
    pub cook_time: Option<Seq<char>>,
    pub total_time: Option<Seq<char>>,
    pub yield_amount: Option<Seq<char>>,
    pub article: Option<Seq<char>>,
    pub ingredients: Seq<Seq<char>>,
    pub steps: Seq<RecipeStepV>,
    pub image: Option<Seq<char>>,
    pub tags: Option<Seq<Seq<char>>>,
    pub nutrition: Option<NutritionInfoV>,
}

/// The view of an optional string.
pub open spec fn opt_view(o: Option<String>) -> Option<Seq<char>> {
    match o {
        Option::None => None,
        Option::Some(s) => Some(s@),
    }
}

/// The element-wise view of a vector of strings.
pub open spec fn strs_view(v: Seq<String>) -> Seq<Seq<char>>
    decreases v.len(),
{
    if v.len() == 0 {
        Seq::<Seq<char>>::empty()
    } else {
        seq![v[0]@] + strs_view(v.drop_first())
    }
}

/// The element-wise view of a vector of steps.
pub open spec fn steps_view(v: Seq<RecipeStep>) -> Seq<RecipeStepV>
    decreases v.len(),
{
    if v.len() == 0 {
        Seq::<RecipeStepV>::empty()
    } else {
        seq![v[0]@] + steps_view(v.drop_first())
    }
}

/// `strs_view` maps the view over the sequence, index by index.
pub proof fn lemma_strs_view(v: Seq<String>)
    ensures
        strs_view(v).len() == v.len(),
        forall|i: int| 0 <= i < v.len() ==> strs_view(v)[i] == v[i]@,
    decreases v.len(),
{
    if v.len() > 0 {
        lemma_strs_view(v.drop_first());
    }
}

/// `steps_view` maps the view over the sequence, index by index.
pub proof fn lemma_steps_view(v: Seq<RecipeStep>)
    ensures
        steps_view(v).len() == v.len(),
        forall|i: int| 0 <= i < v.len() ==> steps_view(v)[i] == v[i]@,
    decreases v.len(),
{
    if v.len() > 0 {
        lemma_steps_view(v.drop_first());
    }
}

impl View for RecipeStep {
    type V = RecipeStepV;

    open spec fn view(&self) -> RecipeStepV {
        RecipeStepV {
            description: self.description@,
            image: opt_view(self.image),
            duration: opt_view(self.duration),
        }
    }
}

impl View for NutritionInfo {
    type V = NutritionInfoV;

    open spec fn view(&self) -> NutritionInfoV {
        NutritionInfoV {
            calories: opt_view(self.calories),
            fat_content: opt_view(self.fat_content),
            carbohydrate_content: opt_view(self.carbohydrate_content),
            protein_content: opt_view(self.protein_content),
            fiber_content: opt_view(self.fiber_content),
            sugar_content: opt_view(self.sugar_content),
        }
    }
}

impl View for Recipe {
    type V = RecipeV;

    open spec fn view(&self) -> RecipeV {
        RecipeV {
            title: self.title@,
            description: opt_view(self.description),
            author: opt_view(self.author),
            prep_time: opt_view(self.prep_time),
            cook_time: opt_view(self.cook_time),
            total_time: opt_view(self.total_time),
            yield_amount: opt_view(self.yield_amount),
            article: opt_view(self.article),
            ingredients: strs_view(self.ingredients@),
            steps: steps_view(self.steps@),
            image: opt_view(self.image),
            tags: match self.tags {
                Option::None => None,
                Option::Some(ts) => Some(strs_view(ts@)),
            },
            nutrition: match self.nutrition {
                Option::None => None,
                Option::Some(n) => Some(n@),
            },
        }
    }
}

impl Default for Recipe {
    /// The empty recipe: empty title, no optional fields, no ingredients,
    /// no steps.
    fn default() -> (r: Recipe)
        ensures
            r@ == (RecipeV {
                title: Seq::<char>::empty(),
                description: None,
                author: None,
                prep_time: None,
                cook_time: None,
                total_time: None,
                yield_amount: None,
                article: None,
                ingredients: Seq::<Seq<char>>::empty(),
                steps: Seq::<RecipeStepV>::empty(),
                image: None,
                tags: None,
                nutrition: None,
            }),
    {
        let r = Recipe {
            title: String::new(),
            description: None,
            author: None,
            prep_time: None,
            cook_time: None,
            total_time: None,
            yield_amount: None,
            article: None,
            ingredients: Vec::new(),
            steps: Vec::new(),
            image: None,
            tags: None,
            nutrition: None,
        };
        proof {
            assert(strs_view(r.ingredients@) =~= Seq::<Seq<char>>::empty());
            assert(steps_view(r.steps@) =~= Seq::<RecipeStepV>::empty());
        }
        r
    }
}

/// An optional string as a JSON value: `null` when absent.
pub open spec fn opt_str_jv(o: Option<Seq<char>>) -> Jv {
    match o {
        Option::None => Jv::Null,
        Option::Some(s) => Jv::Str(s),
    }
}

/// A sequence of strings as a sequence of JSON string values.
pub open spec fn strs_jv(ss: Seq<Seq<char>>) -> Seq<Jv>
    decreases ss.len(),
{
    if ss.len() == 0 {
        Seq::<Jv>::empty()
    } else {
        seq![Jv::Str(ss[0])] + strs_jv(ss.drop_first())
    }
}

/// `strs_jv` maps `Jv::Str` over the sequence, index by index.
pub proof fn lemma_strs_jv(ss: Seq<Seq<char>>)
    ensures
        strs_jv(ss).len() == ss.len(),
        forall|i: int| 0 <= i < ss.len() ==> strs_jv(ss)[i] == Jv::Str(ss[i]),
    decreases ss.len(),
{
    if ss.len() > 0 {
        lemma_strs_jv(ss.drop_first());
    }
}

/// An optional list of strings as a JSON value: `null` when absent.
pub open spec fn opt_strs_jv(o: Option<Seq<Seq<char>>>) -> Jv {
    match o {
        Option::None => Jv::Null,
        Option::Some(ss) => Jv::Arr(strs_jv(ss)),
    }
}

/// One step as a JSON object.
pub open spec fn json_of_step(st: RecipeStepV) -> Jv {
    Jv::Obj(
        seq![
            ("description"@, Jv::Str(st.description)),
            ("image"@, opt_str_jv(st.image)),
            ("duration"@, opt_str_jv(st.duration)),
        ],
    )
}

/// A sequence of steps as a sequence of JSON objects.
pub open spec fn steps_jv(sts: Seq<RecipeStepV>) -> Seq<Jv>
    decreases sts.len(),
{
    if sts.len() == 0 {
        Seq::<Jv>::empty()
    } else {
        seq![json_of_step(sts[0])] + steps_jv(sts.drop_first())
    }
}

/// `steps_jv` maps `json_of_step` over the sequence, index by index.
pub proof fn lemma_steps_jv(sts: Seq<RecipeStepV>)
    ensures
        steps_jv(sts).len() == sts.len(),
        forall|i: int| 0 <= i < sts.len() ==> steps_jv(sts)[i] == json_of_step(sts[i]),
    decreases sts.len(),
{
    if sts.len() > 0 {
        lemma_steps_jv(sts.drop_first());
    }
}

/// The nutrition facts as a JSON value: `null` when absent.
pub open spec fn json_of_nutrition(o: Option<NutritionInfoV>) -> Jv {
    match o {
        Option::None => Jv::Null,
        Option::Some(n) => Jv::Obj(
            seq![
                ("calories"@, opt_str_jv(n.calories)),
                ("fat_content"@, opt_str_jv(n.fat_content)),
                ("carbohydrate_content"@, opt_str_jv(n.carbohydrate_content)),
                ("protein_content"@, opt_str_jv(n.protein_content)),
                ("fiber_content"@, opt_str_jv(n.fiber_content)),
                ("sugar_content"@, opt_str_jv(n.sugar_content)),
            ],
        ),
    }
}

/// A recipe as a JSON object: one member per field, in this fixed order,
/// with `null` for an absent optional field.
pub open spec fn json_of_recipe(r: RecipeV) -> Jv {
    Jv::Obj(
        seq![
            ("title"@, Jv::Str(r.title)),
            ("description"@, opt_str_jv(r.description)),
            ("author"@, opt_str_jv(r.author)),
            ("prep_time"@, opt_str_jv(r.prep_time)),
            ("cook_time"@, opt_str_jv(r.cook_time)),
            ("total_time"@, opt_str_jv(r.total_time)),
            ("yield_amount"@, opt_str_jv(r.yield_amount)),
            ("article"@, opt_str_jv(r.article)),
            ("ingredients"@, Jv::Arr(strs_jv(r.ingredients))),
            ("steps"@, Jv::Arr(steps_jv(r.steps))),
            ("image"@, opt_str_jv(r.image)),
            ("tags"@, opt_strs_jv(r.tags)),
            ("nutrition"@, json_of_nutrition(r.nutrition)),
        ],
    )
}

/// First-match lookup among object members, from index `i` on.
pub open spec fn lookup_from(ms: Seq<(Seq<char>, Jv)>, key: Seq<char>, i: int) -> Option<Jv>
    decreases ms.len() - i,
{
    if i < 0 || i >= ms.len() {
        None
    } else if ms[i].0 == key {
        Some(ms[i].1)
    } else {
        lookup_from(ms, key, i + 1)
    }
}

/// First-match lookup among object members.
pub open spec fn lookup(ms: Seq<(Seq<char>, Jv)>, key: Seq<char>) -> Option<Jv> {
    lookup_from(ms, key, 0)
}

/// A required string member: present and a string, or nothing.
pub open spec fn req_str(ms: Seq<(Seq<char>, Jv)>, key: Seq<char>) -> Option<Seq<char>> {
    match lookup(ms, key) {
        Option::Some(Jv::Str(s)) => Some(s),
        _ => None,
    }
}

/// An optional string member: absent or `null` is `Some(None)`; a string is
/// `Some(Some(..))`; any other type is a shape error, `None`.
pub open spec fn opt_str(ms: Seq<(Seq<char>, Jv)>, key: Seq<char>) -> Option<Option<Seq<char>>> {
    match lookup(ms, key) {
        Option::None => Some(None),
        Option::Some(Jv::Null) => Some(None),
        Option::Some(Jv::Str(s)) => Some(Some(s)),
        _ => None,
    }
}

/// The strings of a JSON array, from index `k` on; `None` if any item is
/// not a string.
pub open spec fn strs_of(items: Seq<Jv>, k: int) -> Option<Seq<Seq<char>>>
    decreases items.len() - k,
{
    if k < 0 || k >= items.len() {
        Some(Seq::<Seq<char>>::empty())
    } else {
        match items[k] {
            Jv::Str(s) => match strs_of(items, k + 1) {
                Option::None => None,
                Option::Some(r) => Some(seq![s] + r),
            },
            _ => None,
        }
    }
}

/// One step from a JSON value: an object with a required `description`
/// string and optional `image` and `duration` strings.
pub open spec fn step_of_json(j: Jv) -> Option<RecipeStepV> {
    match j {
        Jv::Obj(ms) => match (req_str(ms, "description"@), opt_str(ms, "image"@), opt_str(
            ms,
            "duration"@,
        )) {
            (Option::Some(d), Option::Some(im), Option::Some(du)) => Some(
                RecipeStepV { description: d, image: im, duration: du },
            ),
            _ => None,
        },
        _ => None,
    }
}

/// The steps of a JSON array, from index `k` on; `None` if any item is not
/// a step object.
pub open spec fn steps_of(items: Seq<Jv>, k: int) -> Option<Seq<RecipeStepV>>
    decreases items.len() - k,
{
    if k < 0 || k >= items.len() {
        Some(Seq::<RecipeStepV>::empty())
    } else {
        match step_of_json(items[k]) {
            Option::None => None,
            Option::Some(st) => match steps_of(items, k + 1) {
                Option::None => None,
                Option::Some(r) => Some(seq![st] + r),
            },
        }
    }
}

/// A required array-of-strings member.
pub open spec fn req_strs(ms: Seq<(Seq<char>, Jv)>, key: Seq<char>) -> Option<Seq<Seq<char>>> {
    match lookup(ms, key) {
        Option::Some(Jv::Arr(items)) => strs_of(items, 0),
        _ => None,
    }
}

/// An optional array-of-strings member: absent or `null` is `Some(None)`.
pub open spec fn opt_strs(ms: Seq<(Seq<char>, Jv)>, key: Seq<char>) -> Option<
    Option<Seq<Seq<char>>>,
> {
    match lookup(ms, key) {
        Option::None => Some(None),
        Option::Some(Jv::Null) => Some(None),
        Option::Some(Jv::Arr(items)) => match strs_of(items, 0) {
            Option::None => None,
            Option::Some(ss) => Some(Some(ss)),
        },
        _ => None,
    }
}

/// The nutrition facts from a JSON value: six optional strings.
pub open spec fn nutrition_of_json(j: Jv) -> Option<NutritionInfoV> {
    match j {
        Jv::Obj(ms) => match (opt_str(ms, "calories"@), opt_str(ms, "fat_content"@), opt_str(
            ms,
            "carbohydrate_content"@,
        ), opt_str(ms, "protein_content"@), opt_str(ms, "fiber_content"@), opt_str(
            ms,
            "sugar_content"@,
        )) {
            (
                Option::Some(ca),
                Option::Some(fa),
                Option::Some(ch),
                Option::Some(pr),
                Option::Some(fi),
                Option::Some(su),
            ) => Some(
                NutritionInfoV {
                    calories: ca,
                    fat_content: fa,
                    carbohydrate_content: ch,
                    protein_content: pr,
                    fiber_content: fi,
                    sugar_content: su,
                },
            ),
            _ => None,
        },
        _ => None,
    }
}

/// An optional nutrition member: absent or `null` is `Some(None)`.
pub open spec fn opt_nutrition(ms: Seq<(Seq<char>, Jv)>) -> Option<Option<NutritionInfoV>> {
    match lookup(ms, "nutrition"@) {
        Option::None => Some(None),
        Option::Some(Jv::Null) => Some(None),
        Option::Some(j) => match nutrition_of_json(j) {
            Option::None => None,
            Option::Some(n) => Some(Some(n)),
        },
    }
}

/// An optional steps member is not offered: `steps` is required.
/// The steps member itself: a required array of step objects.
pub open spec fn req_steps(ms: Seq<(Seq<char>, Jv)>) -> Option<Seq<RecipeStepV>> {
    match lookup(ms, "steps"@) {
        Option::Some(Jv::Arr(items)) => steps_of(items, 0),
        _ => None,
    }
}

/// A recipe from a JSON document: an object with a required `title` string,
/// required `ingredients` and `steps` arrays, and the optional fields as
/// `opt_str` and friends describe them. A missing required member or a
/// member of the wrong type is a shape error (`None`), never a default.
pub open spec fn recipe_of_json(j: Jv) -> Option<RecipeV> {
    match j {
        Jv::Obj(ms) => match (req_str(ms, "title"@), req_strs(ms, "ingredients"@), req_steps(ms)) {
            (Option::Some(t), Option::Some(ing), Option::Some(sts)) => match (opt_str(
                ms,
                "description"@,
            ), opt_str(ms, "author"@), opt_str(ms, "prep_time"@), opt_str(ms, "cook_time"@),
            opt_str(ms, "total_time"@), opt_str(ms, "yield_amount"@), opt_str(ms, "article"@),
            opt_str(ms, "image"@), opt_strs(ms, "tags"@), opt_nutrition(ms)) {
                (
                    Option::Some(de),
                    Option::Some(au),
                    Option::Some(pt),
                    Option::Some(ct),
                    Option::Some(tt),
                    Option::Some(ya),
                    Option::Some(ar),
                    Option::Some(im),
                    Option::Some(tg),
                    Option::Some(nu),
                ) => Some(
                    RecipeV {
                        title: t,
                        description: de,
                        author: au,
                        prep_time: pt,
                        cook_time: ct,
                        total_time: tt,
                        yield_amount: ya,
                        article: ar,
                        ingredients: ing,
                        steps: sts,
                        image: im,
                        tags: tg,
                        nutrition: nu,
                    },
                ),
                _ => None,
            },
            _ => None,
        },
        _ => None,
    }
}

/// An optional string as a `Json` value: `null` when absent.
fn opt_str_json(o: &Option<String>) -> (j: Json)
    ensures
        j@ == opt_str_jv(opt_view(*o)),
{
    match o {
        None => Json::Null,
        Some(s) => Json::Str(s.clone()),
    }
}

/// A vector of strings as a `Json` array of strings.
fn strs_json(v: &Vec<String>) -> (j: Json)
    ensures
        j@ == Jv::Arr(strs_jv(strs_view(v@))),
{
    let mut acc: Vec<Json> = Vec::new();
    let mut i: usize = 0;
    while i < v.len()
        invariant
            i <= v@.len(),
            acc@.len() == i,
            forall|k: int| 0 <= k < i ==> crate::json::jv(#[trigger] acc@[k]) == Jv::Str(v@[k]@),
        decreases v@.len() - i,
    {
        acc.push(Json::Str(v[i].clone()));
        i += 1;
    }
    proof {
        crate::json::lemma_jv_items(acc@);
        lemma_strs_jv(strs_view(v@));
        lemma_strs_view(v@);
        assert(crate::json::jv_items(acc@) =~= strs_jv(strs_view(v@)));
    }
    Json::Arr(acc)
}

/// One step as a `Json` object.
fn step_json(st: &RecipeStep) -> (j: Json)
    ensures
        j@ == json_of_step(st@),
{
    let mut ms: Vec<(String, Json)> = Vec::new();
    ms.push(("description".to_owned(), Json::Str(st.description.clone())));
    ms.push(("image".to_owned(), opt_str_json(&st.image)));
    ms.push(("duration".to_owned(), opt_str_json(&st.duration)));
    proof {
        crate::json::lemma_jv_members(ms@);
        assert(crate::json::jv_members(ms@) =~= seq![
            ("description"@, Jv::Str(st.description@)),
            ("image"@, opt_str_jv(opt_view(st.image))),
            ("duration"@, opt_str_jv(opt_view(st.duration))),
        ]);
    }
    Json::Obj(ms)
}

/// A vector of steps as a `Json` array of step objects.
fn steps_json(v: &Vec<RecipeStep>) -> (j: Json)
    ensures
        j@ == Jv::Arr(steps_jv(steps_view(v@))),
{
    let mut acc: Vec<Json> = Vec::new();
    let mut i: usize = 0;
    while i < v.len()
        invariant
            i <= v@.len(),
            acc@.len() == i,
            forall|k: int|
                0 <= k < i ==> crate::json::jv(#[trigger] acc@[k]) == json_of_step(v@[k]@),
        decreases v@.len() - i,
    {
        acc.push(step_json(&v[i]));
        i += 1;
    }
    proof {
        crate::json::lemma_jv_items(acc@);
        lemma_steps_jv(steps_view(v@));
        lemma_steps_view(v@);
        assert(crate::json::jv_items(acc@) =~= steps_jv(steps_view(v@)));
    }
    Json::Arr(acc)
}

/// The nutrition facts as a `Json` value: `null` when absent.
fn nutrition_json(o: &Option<NutritionInfo>) -> (j: Json)
    ensures
        (o matches Some(n) ==> j@ == json_of_nutrition(Some(n@))),
        o is None ==> j@ == json_of_nutrition(None),
{
    match o {
        None => Json::Null,
        Some(n) => {
            let mut ms: Vec<(String, Json)> = Vec::new();
            ms.push(("calories".to_owned(), opt_str_json(&n.calories)));
            ms.push(("fat_content".to_owned(), opt_str_json(&n.fat_content)));
            ms.push(("carbohydrate_content".to_owned(), opt_str_json(&n.carbohydrate_content)));
            ms.push(("protein_content".to_owned(), opt_str_json(&n.protein_content)));
            ms.push(("fiber_content".to_owned(), opt_str_json(&n.fiber_content)));
            ms.push(("sugar_content".to_owned(), opt_str_json(&n.sugar_content)));
            proof {
                crate::json::lemma_jv_members(ms@);
                assert(crate::json::jv_members(ms@) =~= seq![
                    ("calories"@, opt_str_jv(opt_view(n.calories))),
                    ("fat_content"@, opt_str_jv(opt_view(n.fat_content))),
                    ("carbohydrate_content"@, opt_str_jv(opt_view(n.carbohydrate_content))),
                    ("protein_content"@, opt_str_jv(opt_view(n.protein_content))),
                    ("fiber_content"@, opt_str_jv(opt_view(n.fiber_content))),
                    ("sugar_content"@, opt_str_jv(opt_view(n.sugar_content))),
                ]);
            }
            Json::Obj(ms)
        },
    }
}

impl Recipe {
    /// The recipe as a JSON document, exactly as `json_of_recipe` says.
    pub fn to_json(&self) -> (j: Json)
        ensures
            j@ == json_of_recipe(self@),
    {
        let mut ms: Vec<(String, Json)> = Vec::new();
        ms.push(("title".to_owned(), Json::Str(self.title.clone())));
        ms.push(("description".to_owned(), opt_str_json(&self.description)));
        ms.push(("author".to_owned(), opt_str_json(&self.author)));
        ms.push(("prep_time".to_owned(), opt_str_json(&self.prep_time)));
        ms.push(("cook_time".to_owned(), opt_str_json(&self.cook_time)));
        ms.push(("total_time".to_owned(), opt_str_json(&self.total_time)));
        ms.push(("yield_amount".to_owned(), opt_str_json(&self.yield_amount)));
        ms.push(("article".to_owned(), opt_str_json(&self.article)));
        ms.push(("ingredients".to_owned(), strs_json(&self.ingredients)));
        ms.push(("steps".to_owned(), steps_json(&self.steps)));
        ms.push(("image".to_owned(), opt_str_json(&self.image)));
        let tags_json = match &self.tags {
            None => Json::Null,
            Some(ts) => strs_json(ts),
        };
        ms.push(("tags".to_owned(), tags_json));
        ms.push(("nutrition".to_owned(), nutrition_json(&self.nutrition)));
        proof {
            crate::json::lemma_jv_members(ms@);
            assert(crate::json::jv_members(ms@) =~= seq![
                ("title"@, Jv::Str(self.title@)),
                ("description"@, opt_str_jv(opt_view(self.description))),
                ("author"@, opt_str_jv(opt_view(self.author))),
                ("prep_time"@, opt_str_jv(opt_view(self.prep_time))),
                ("cook_time"@, opt_str_jv(opt_view(self.cook_time))),
                ("total_time"@, opt_str_jv(opt_view(self.total_time))),
                ("yield_amount"@, opt_str_jv(opt_view(self.yield_amount))),
                ("article"@, opt_str_jv(opt_view(self.article))),
                ("ingredients"@, Jv::Arr(strs_jv(strs_view(self.ingredients@)))),
                ("steps"@, Jv::Arr(steps_jv(steps_view(self.steps@)))),
                ("image"@, opt_str_jv(opt_view(self.image))),
                ("tags"@, opt_strs_jv(self@.tags)),
                ("nutrition"@, json_of_nutrition(self@.nutrition)),
            ]);
        }
        Json::Obj(ms)
    }

    /// The recipe as JSON text: the serialization of `to_json`.
    pub fn to_json_text(&self) -> (text: String)
        ensures
            text@ == crate::json::ser(json_of_recipe(self@)),
    {
        self.to_json().to_text()
    }
}

/// Why a backend reply could not be turned into a recipe: the text was not
/// JSON at all, or it was JSON of the wrong shape.
#[derive(Debug, Clone, Copy, PartialEq, Eq)]
pub enum ParseError {
    InvalidJson,
    InvalidShape,
}

impl Recipe {
    /// Parses a backend reply into a recipe: the text must be one JSON
    /// document of the recipe shape. The two failure cases are
    /// distinguished: text that is not JSON, and JSON that is not a recipe.
    pub fn parse(text: &str) -> (r: Result<Recipe, ParseError>)
        ensures
            (r matches Ok(rec) ==> (crate::json::parse_text(text@) matches Some(j)
                && recipe_of_json(j) == Some(rec@))),
            (r matches Err(ParseError::InvalidJson) ==> crate::json::parse_text(text@) is None),
            (r matches Err(ParseError::InvalidShape) ==> (crate::json::parse_text(text@) matches
                Some(j) && recipe_of_json(j) is None)),
    {
        match Json::parse(text) {
            None => Err(ParseError::InvalidJson),
            Some(j) => match Recipe::from_json(&j) {
                Some(rec) => Ok(rec),
                None => Err(ParseError::InvalidShape),
            },
        }
    }
}

/// First-match lookup among the members of a `Json` object.
fn lookup_exec<'a>(ms: &'a Vec<(String, Json)>, key: &str) -> (r: Option<&'a Json>)
    ensures
        (r matches Some(j) ==> lookup(crate::json::jv_members(ms@), key@) == Some(j@)),
        r is None ==> lookup(crate::json::jv_members(ms@), key@) is None,
{
    proof {
        crate::json::lemma_jv_members(ms@);
    }
    let ghost mv = crate::json::jv_members(ms@);
    let k = key.to_owned();
    let mut i: usize = 0;
    while i < ms.len()
        invariant
            i <= ms@.len(),
            k@ == key@,
            mv == crate::json::jv_members(ms@),
            mv.len() == ms@.len(),
            forall|x: int| 0 <= x < ms@.len() ==> mv[x] == (ms@[x].0@, crate::json::jv(ms@[x].1)),
            lookup_from(mv, key@, 0) == lookup_from(mv, key@, i as int),
        decreases ms@.len() - i,
    {
        if ms[i].0 == k {
            return Some(&ms[i].1);
        }
        i += 1;
    }
    None
}

/// Clones the payload of a string member; `None` when the member is missing
/// or not a string.
fn get_req_str(ms: &Vec<(String, Json)>, key: &str) -> (r: Option<String>)
    ensures
        (r matches Some(s) ==> req_str(crate::json::jv_members(ms@), key@) == Some(s@)),
        r is None ==> req_str(crate::json::jv_members(ms@), key@) is None,
{
    match lookup_exec(ms, key) {
        Some(Json::Str(s)) => Some(s.clone()),
        _ => None,
    }
}

/// An optional string member, as `opt_str` describes it.
fn get_opt_str(ms: &Vec<(String, Json)>, key: &str) -> (r: Option<Option<String>>)
    ensures
        (r matches Some(o) ==> opt_str(crate::json::jv_members(ms@), key@) == Some(opt_view(o))),
        r is None ==> opt_str(crate::json::jv_members(ms@), key@) is None,
{
    match lookup_exec(ms, key) {
        None => Some(None),
        Some(Json::Null) => Some(None),
        Some(Json::Str(s)) => Some(Some(s.clone())),
        _ => None,
    }
}

/// `r` with `pre` prepended, for lists of strings.
spec fn prepend_strs(pre: Seq<Seq<char>>, r: Option<Seq<Seq<char>>>) -> Option<
    Seq<Seq<char>>,
> {
    match r {
        Option::None => None,
        Option::Some(t) => Some(pre + t),
    }
}

/// Prepending twice is prepending the concatenation.
proof fn lemma_prepend_strs_assoc(pre: Seq<Seq<char>>, mid: Seq<Seq<char>>, r: Option<
    Seq<Seq<char>>,
>)
    ensures
        prepend_strs(pre, prepend_strs(mid, r)) == prepend_strs(pre + mid, r),
{
    match r {
        Option::None => {
        },
        Option::Some(t) => {
            assert(pre + (mid + t) =~= (pre + mid) + t);
        },
    }
}

/// The strings of a `Json` array, cloned; `None` if any item is not a
/// string.
fn strs_of_exec(items: &Vec<Json>) -> (r: Option<Vec<String>>)
    ensures
        (r matches Some(v) ==> strs_of(crate::json::jv_items(items@), 0) == Some(strs_view(v@))),
        r is None ==> strs_of(crate::json::jv_items(items@), 0) is None,
{
    proof {
        crate::json::lemma_jv_items(items@);
    }
    let ghost iv = crate::json::jv_items(items@);
    let mut acc: Vec<String> = Vec::new();
    let mut k: usize = 0;
    while k < items.len()
        invariant
            k <= items@.len(),
            iv == crate::json::jv_items(items@),
            iv.len() == items@.len(),
            forall|x: int| 0 <= x < items@.len() ==> iv[x] == crate::json::jv(items@[x]),
            strs_of(iv, 0) == prepend_strs(strs_view(acc@), strs_of(iv, k as int)),
        decreases items@.len() - k,
    {
        let ghost acc0 = acc@;
        match &items[k] {
            Json::Str(s) => {
                acc.push(s.clone());
            },
            _ => {
                return None;
            },
        }
        proof {
            lemma_strs_view(acc0);
            lemma_strs_view(acc@);
            assert(strs_view(acc@) =~= strs_view(acc0) + seq![iv[k as int]->Str_0]);
            lemma_prepend_strs_assoc(
                strs_view(acc0),
                seq![iv[k as int]->Str_0],
                strs_of(iv, k + 1),
            );
        }
        k += 1;
    }
    proof {
        assert(strs_view(acc@) + Seq::<Seq<char>>::empty() =~= strs_view(acc@));
    }
    Some(acc)
}

/// One step from a `Json` value, as `step_of_json` describes it.
fn step_from_json(j: &Json) -> (r: Option<RecipeStep>)
    ensures
        (r matches Some(st) ==> step_of_json(j@) == Some(st@)),
        r is None ==> step_of_json(j@) is None,
{
    match j {
        Json::Obj(ms) => {
            let description = match get_req_str(ms, "description") {
                Some(d) => d,
                None => {
                    return None;
                },
            };
            let image = match get_opt_str(ms, "image") {
                Some(o) => o,
                None => {
                    return None;
                },
            };
            let duration = match get_opt_str(ms, "duration") {
                Some(o) => o,
                None => {
                    return None;
                },
            };
            Some(RecipeStep { description, image, duration })
        },
        _ => None,
    }
}

/// `r` with `pre` prepended, for lists of steps.
spec fn prepend_steps(pre: Seq<RecipeStepV>, r: Option<Seq<RecipeStepV>>) -> Option<
    Seq<RecipeStepV>,
> {
    match r {
        Option::None => None,
        Option::Some(t) => Some(pre + t),
    }
}

/// Prepending twice is prepending the concatenation.
proof fn lemma_prepend_steps_assoc(
    pre: Seq<RecipeStepV>,
    mid: Seq<RecipeStepV>,
    r: Option<Seq<RecipeStepV>>,
)
    ensures
        prepend_steps(pre, prepend_steps(mid, r)) == prepend_steps(pre + mid, r),
{
    match r {
        Option::None => {
        },
        Option::Some(t) => {
            assert(pre + (mid + t) =~= (pre + mid) + t);
        },
    }
}

/// The steps of a `Json` array; `None` if any item is not a step object.
fn steps_of_exec(items: &Vec<Json>) -> (r: Option<Vec<RecipeStep>>)
    ensures
        (r matches Some(v) ==> steps_of(crate::json::jv_items(items@), 0) == Some(steps_view(v@))),
        r is None ==> steps_of(crate::json::jv_items(items@), 0) is None,
{
    proof {
        crate::json::lemma_jv_items(items@);
    }
    let ghost iv = crate::json::jv_items(items@);
    let mut acc: Vec<RecipeStep> = Vec::new();
    let mut k: usize = 0;
    while k < items.len()
        invariant
            k <= items@.len(),
            iv == crate::json::jv_items(items@),
            iv.len() == items@.len(),
            forall|x: int| 0 <= x < items@.len() ==> iv[x] == crate::json::jv(items@[x]),
            steps_of(iv, 0) == prepend_steps(steps_view(acc@), steps_of(iv, k as int)),
        decreases items@.len() - k,
    {
        let ghost acc0 = acc@;
        match step_from_json(&items[k]) {
            Some(st) => {
                let ghost stv = st@;
                acc.push(st);
                proof {
                    lemma_steps_view(acc0);
                    lemma_steps_view(acc@);
                    assert(steps_view(acc@) =~= steps_view(acc0) + seq![stv]);
                    lemma_prepend_steps_assoc(steps_view(acc0), seq![stv], steps_of(iv, k + 1));
                }
            },
            None => {
                return None;
            },
        }
        k += 1;
    }
    proof {
        assert(steps_view(acc@) + Seq::<RecipeStepV>::empty() =~= steps_view(acc@));
    }
    Some(acc)
}

/// The nutrition facts from a `Json` value, as `nutrition_of_json` says.
fn nutrition_from_json(j: &Json) -> (r: Option<NutritionInfo>)
    ensures
        (r matches Some(n) ==> nutrition_of_json(j@) == Some(n@)),
        r is None ==> nutrition_of_json(j@) is None,
{
    match j {
        Json::Obj(ms) => {
            let calories = match get_opt_str(ms, "calories") {
                Some(o) => o,
                None => {
                    return None;
                },
            };
            let fat_content = match get_opt_str(ms, "fat_content") {
                Some(o) => o,
                None => {
                    return None;
                },
            };
            let carbohydrate_content = match get_opt_str(ms, "carbohydrate_content") {
                Some(o) => o,
                None => {
                    return None;
                },
            };
            let protein_content = match get_opt_str(ms, "protein_content") {
                Some(o) => o,
                None => {
                    return None;
                },
            };
            let fiber_content = match get_opt_str(ms, "fiber_content") {
                Some(o) => o,
                None => {
                    return None;
                },
            };
            let sugar_content = match get_opt_str(ms, "sugar_content") {
                Some(o) => o,
                None => {
                    return None;
                },
            };
            Some(
                NutritionInfo {
                    calories,
                    fat_content,
                    carbohydrate_content,
                    protein_content,
                    fiber_content,
                    sugar_content,
                },
            )
        },
        _ => None,
    }
}

impl Recipe {
    /// Reads a recipe out of a JSON document, exactly as `recipe_of_json`
    /// describes it: `None` on a missing required member or a member of the
    /// wrong type, never a substituted default.
    pub fn from_json(j: &Json) -> (r: Option<Recipe>)
        ensures
            (r matches Some(rec) ==> recipe_of_json(j@) == Some(rec@)),
            r is None <==> recipe_of_json(j@) is None,
    {
        match j {
            Json::Obj(ms) => {
                let title = match get_req_str(ms, "title") {
                    Some(t) => t,
                    None => {
                        return None;
                    },
                };
                let ingredients = match lookup_exec(ms, "ingredients") {
                    Some(Json::Arr(items)) => match strs_of_exec(items) {
                        Some(v) => v,
                        None => {
                            return None;
                        },
                    },
                    _ => {
                        return None;
                    },
                };
                let steps = match lookup_exec(ms, "steps") {
                    Some(Json::Arr(items)) => match steps_of_exec(items) {
                        Some(v) => v,
                        None => {
                            return None;
                        },
                    },
                    _ => {
                        return None;
                    },
                };
                let description = match get_opt_str(ms, "description") {
                    Some(o) => o,
                    None => {
                        return None;
                    },
                };
                let author = match get_opt_str(ms, "author") {
                    Some(o) => o,
                    None => {
                        return None;
                    },
                };
                let prep_time = match get_opt_str(ms, "prep_time") {
                    Some(o) => o,
                    None => {
                        return None;
                    },
                };
                let cook_time = match get_opt_str(ms, "cook_time") {
                    Some(o) => o,
                    None => {
                        return None;
                    },
                };
                let total_time = match get_opt_str(ms, "total_time") {
                    Some(o) => o,
                    None => {
                        return None;
                    },
                };
                let yield_amount = match get_opt_str(ms, "yield_amount") {
                    Some(o) => o,
                    None => {
                        return None;
                    },
                };
                let article = match get_opt_str(ms, "article") {
                    Some(o) => o,
                    None => {
                        return None;
                    },
                };
                let image = match get_opt_str(ms, "image") {
                    Some(o) => o,
                    None => {
                        return None;
                    },
                };
                let tags = match lookup_exec(ms, "tags") {
                    None => None,
                    Some(Json::Null) => None,
                    Some(Json::Arr(items)) => match strs_of_exec(items) {
                        Some(v) => Some(v),
                        None => {
                            return None;
                        },
                    },
                    _ => {
                        return None;
                    },
                };
                let nutrition = match lookup_exec(ms, "nutrition") {
                    None => None,
                    Some(Json::Null) => None,
                    Some(nj) => match nutrition_from_json(nj) {
                        Some(n) => Some(n),
                        None => {
                            return None;
                        },
                    },
                };
                Some(
                    Recipe {
                        title,
                        description,
                        author,
                        prep_time,
                        cook_time,
                        total_time,
                        yield_amount,
                        article,
                        ingredients,
                        steps,
                        image,
                        tags,
                        nutrition,
                    },
                )
            },
            _ => None,
        }
    }
}

/// An optional string serializes to a well-formed JSON value.
proof fn lemma_wf_opt_str(o: Option<Seq<char>>)
    ensures
        crate::json::wf_jv(opt_str_jv(o)),
{
    match o {
        Option::None => {
            assert(crate::json::wf_jv(Jv::Null));
        },
        Option::Some(s) => {
            assert(crate::json::wf_jv(Jv::Str(s)));
        },
    }
}

/// Items that are all well-formed make a well-formed item list.
proof fn lemma_wf_items_all(items: Seq<Jv>, k: int)
    requires
        0 <= k <= items.len(),
        forall|x: int| k <= x < items.len() ==> crate::json::wf_jv(#[trigger] items[x]),
    ensures
        crate::json::wf_items(items, k),
    decreases items.len() - k,
{
    if k < items.len() {
        lemma_wf_items_all(items, k + 1);
    }
}

/// A serialized step is well-formed and reads back as itself.
proof fn lemma_step_round(st: RecipeStepV)
    ensures
        crate::json::wf_jv(json_of_step(st)),
        step_of_json(json_of_step(st)) == Some(st),
{
    reveal_strlit("description");
    reveal_strlit("image");
    reveal_strlit("duration");
    reveal_with_fuel(lookup_from, 5);
    let ms = seq![
        ("description"@, Jv::Str(st.description)),
        ("image"@, opt_str_jv(st.image)),
        ("duration"@, opt_str_jv(st.duration)),
    ];
    assert(ms[0].1 == Jv::Str(st.description));
    assert(ms[1].1 == opt_str_jv(st.image));
    assert(ms[2].1 == opt_str_jv(st.duration));
    lemma_wf_opt_str(st.image);
    lemma_wf_opt_str(st.duration);
    assert(crate::json::wf_jv(Jv::Str(st.description)));
    assert(crate::json::wf_members(ms, 3));
    assert(crate::json::wf_members(ms, 2));
    assert(crate::json::wf_members(ms, 1));
    assert(crate::json::wf_members(ms, 0));
    assert("description"@.len() == 11 && "image"@.len() == 5 && "duration"@.len() == 8);
    assert("description"@ != "image"@ && "description"@ != "duration"@ && "image"@
        != "duration"@);
    assert(lookup(ms, "description"@) == Some(Jv::Str(st.description)));
    assert(lookup(ms, "image"@) == Some(opt_str_jv(st.image)));
    assert(lookup(ms, "duration"@) == Some(opt_str_jv(st.duration)));
    assert(req_str(ms, "description"@) == Some(st.description));
    assert(opt_str(ms, "image"@) == Some(st.image));
    assert(opt_str(ms, "duration"@) == Some(st.duration));
    assert(st == (RecipeStepV {
        description: st.description,
        image: st.image,
        duration: st.duration,
    }));
}

/// A serialized list of strings is well-formed and reads back as the list
/// from index `k` on.
proof fn lemma_strs_round(ss: Seq<Seq<char>>, k: int)
    requires
        0 <= k <= ss.len(),
    ensures
        strs_of(strs_jv(ss), k) == Some(ss.skip(k)),
        crate::json::wf_items(strs_jv(ss), k),
    decreases ss.len() - k,
{
    lemma_strs_jv(ss);
    if k < ss.len() {
        lemma_strs_round(ss, k + 1);
        assert(crate::json::wf_jv(Jv::Str(ss[k])));
        assert(seq![ss[k]] + ss.skip(k + 1) =~= ss.skip(k));
    } else {
        assert(ss.skip(k) =~= Seq::<Seq<char>>::empty());
    }
}

/// A serialized list of steps is well-formed and reads back as the list
/// from index `k` on.
proof fn lemma_steps_round(sts: Seq<RecipeStepV>, k: int)
    requires
        0 <= k <= sts.len(),
    ensures
        steps_of(steps_jv(sts), k) == Some(sts.skip(k)),
        crate::json::wf_items(steps_jv(sts), k),
    decreases sts.len() - k,
{
    lemma_steps_jv(sts);
    if k < sts.len() {
        lemma_step_round(sts[k]);
        lemma_steps_round(sts, k + 1);
        assert(crate::json::wf_jv(steps_jv(sts)[k]));
        assert(seq![sts[k]] + sts.skip(k + 1) =~= sts.skip(k));
    } else {
        assert(sts.skip(k) =~= Seq::<RecipeStepV>::empty());
    }
}

/// Serialized nutrition facts are well-formed and read back as themselves.
proof fn lemma_nutrition_round(o: Option<NutritionInfoV>)
    ensures
        crate::json::wf_jv(json_of_nutrition(o)),
        (o matches Some(n) ==> nutrition_of_json(json_of_nutrition(o)) == Some(n)),
{
    reveal_strlit("calories");
    reveal_strlit("fat_content");
    reveal_strlit("carbohydrate_content");
    reveal_strlit("protein_content");
    reveal_strlit("fiber_content");
    reveal_strlit("sugar_content");
    reveal_with_fuel(lookup_from, 8);
    match o {
        Option::None => {
        },
        Option::Some(n) => {
            let ms = seq![
                ("calories"@, opt_str_jv(n.calories)),
                ("fat_content"@, opt_str_jv(n.fat_content)),
                ("carbohydrate_content"@, opt_str_jv(n.carbohydrate_content)),
                ("protein_content"@, opt_str_jv(n.protein_content)),
                ("fiber_content"@, opt_str_jv(n.fiber_content)),
                ("sugar_content"@, opt_str_jv(n.sugar_content)),
            ];
            assert("calories"@.len() == 8 && "fat_content"@.len() == 11 && "carbohydrate_content"@.len() == 20 && "protein_content"@.len() == 15 && "fiber_content"@.len() == 13 && "sugar_content"@.len() == 13);
            assert("fiber_content"@[0] == 'f' && "sugar_content"@[0] == 's');
            lemma_wf_opt_str(n.calories);
            lemma_wf_opt_str(n.fat_content);
            lemma_wf_opt_str(n.carbohydrate_content);
            lemma_wf_opt_str(n.protein_content);
            lemma_wf_opt_str(n.fiber_content);
            lemma_wf_opt_str(n.sugar_content);
            assert(ms[0].1 == opt_str_jv(n.calories) && ms[1].1 == opt_str_jv(n.fat_content)
                && ms[2].1 == opt_str_jv(n.carbohydrate_content) && ms[3].1 == opt_str_jv(
                n.protein_content,
            ) && ms[4].1 == opt_str_jv(n.fiber_content) && ms[5].1 == opt_str_jv(
                n.sugar_content,
            ));
            assert("calories"@ != "fat_content"@ && "calories"@ != "carbohydrate_content"@ && "calories"@ != "protein_content"@ && "calories"@ != "fiber_content"@ && "calories"@ != "sugar_content"@ && "fat_content"@ != "carbohydrate_content"@ && "fat_content"@ != "protein_content"@ && "fat_content"@ != "fiber_content"@ && "fat_content"@ != "sugar_content"@ && "carbohydrate_content"@ != "protein_content"@ && "carbohydrate_content"@ != "fiber_content"@ && "carbohydrate_content"@ != "sugar_content"@ && "protein_content"@ != "fiber_content"@ && "protein_content"@ != "sugar_content"@ && "fiber_content"@ != "sugar_content"@);
            assert(crate::json::wf_members(ms, 6));
            assert(crate::json::wf_members(ms, 5));
            assert(crate::json::wf_members(ms, 4));
            assert(crate::json::wf_members(ms, 3));
            assert(crate::json::wf_members(ms, 2));
            assert(crate::json::wf_members(ms, 1));
            assert(crate::json::wf_members(ms, 0));
            assert(lookup(ms, "calories"@) == Some(opt_str_jv(n.calories)));
            assert(lookup(ms, "fat_content"@) == Some(opt_str_jv(n.fat_content)));
            assert(lookup(ms, "carbohydrate_content"@) == Some(
                opt_str_jv(n.carbohydrate_content),
            ));
            assert(lookup(ms, "protein_content"@) == Some(opt_str_jv(n.protein_content)));
            assert(lookup(ms, "fiber_content"@) == Some(opt_str_jv(n.fiber_content)));
            assert(lookup(ms, "sugar_content"@) == Some(opt_str_jv(n.sugar_content)));
            assert(opt_str(ms, "calories"@) == Some(n.calories));
            assert(opt_str(ms, "fat_content"@) == Some(n.fat_content));
            assert(opt_str(ms, "carbohydrate_content"@) == Some(n.carbohydrate_content));
            assert(opt_str(ms, "protein_content"@) == Some(n.protein_content));
            assert(opt_str(ms, "fiber_content"@) == Some(n.fiber_content));
            assert(opt_str(ms, "sugar_content"@) == Some(n.sugar_content));
            assert(n == (NutritionInfoV {
                calories: n.calories,
                fat_content: n.fat_content,
                carbohydrate_content: n.carbohydrate_content,
                protein_content: n.protein_content,
                fiber_content: n.fiber_content,
                sugar_content: n.sugar_content,
            }));
        },
    }
}

/// The recipe-to-JSON round trip: the document a recipe serializes to is
/// well-formed, and reading a recipe back out of it recovers every field
/// exactly.
#[verifier::rlimit(100)]
#[verifier::spinoff_prover]
pub proof fn lemma_recipe_json_round_trip(r: RecipeV)
    ensures
        crate::json::wf_jv(json_of_recipe(r)),
        recipe_of_json(json_of_recipe(r)) == Some(r),
{
    reveal_strlit("title");
    reveal_strlit("description");
    reveal_strlit("author");
    reveal_strlit("prep_time");
    reveal_strlit("cook_time");
    reveal_strlit("total_time");
    reveal_strlit("yield_amount");
    reveal_strlit("article");
    reveal_strlit("ingredients");
    reveal_strlit("steps");
    reveal_strlit("image");
    reveal_strlit("tags");
    reveal_strlit("nutrition");
    reveal_with_fuel(lookup_from, 15);
    let j = json_of_recipe(r);
    let ms = match j {
        Jv::Obj(ms) => ms,
        _ => Seq::<(Seq<char>, Jv)>::empty(),
    };
    lemma_strs_round(r.ingredients, 0);
    lemma_steps_round(r.steps, 0);
    lemma_nutrition_round(r.nutrition);
    match r.tags {
        Option::None => {
        },
        Option::Some(ts) => {
            lemma_strs_round(ts, 0);
        },
    }
    assert("title"@.len() == 5 && "description"@.len() == 11 && "author"@.len() == 6 && "prep_time"@.len() == 9 && "cook_time"@.len() == 9 && "total_time"@.len() == 10 && "yield_amount"@.len() == 12 && "article"@.len() == 7 && "ingredients"@.len() == 11 && "steps"@.len() == 5 && "image"@.len() == 5 && "tags"@.len() == 4 && "nutrition"@.len() == 9);
    assert("title"@[0] == 't' && "steps"@[0] == 's' && "image"@[0] == 'i' && "prep_time"@[0]
        == 'p' && "cook_time"@[0] == 'c' && "nutrition"@[0] == 'n' && "description"@[0] == 'd'
        && "ingredients"@[0] == 'i' && "description"@[1] == 'e' && "ingredients"@[1] == 'n');
    lemma_wf_opt_str(r.description);
    lemma_wf_opt_str(r.author);
    lemma_wf_opt_str(r.prep_time);
    lemma_wf_opt_str(r.cook_time);
    lemma_wf_opt_str(r.total_time);
    lemma_wf_opt_str(r.yield_amount);
    lemma_wf_opt_str(r.article);
    lemma_wf_opt_str(r.image);
    assert(crate::json::wf_jv(Jv::Str(r.title)));
    assert("title"@ != "description"@ && "title"@ != "author"@ && "title"@ != "prep_time"@ && "title"@ != "cook_time"@ && "title"@ != "total_time"@ && "title"@ != "yield_amount"@ && "title"@ != "article"@ && "title"@ != "ingredients"@ && "title"@ != "steps"@ && "title"@ != "image"@);
    assert("title"@ != "tags"@ && "title"@ != "nutrition"@ && "description"@ != "author"@ && "description"@ != "prep_time"@ && "description"@ != "cook_time"@ && "description"@ != "total_time"@ && "description"@ != "yield_amount"@ && "description"@ != "article"@ && "description"@ != "ingredients"@ && "description"@ != "steps"@);
    assert("description"@ != "image"@ && "description"@ != "tags"@ && "description"@ != "nutrition"@ && "author"@ != "prep_time"@ && "author"@ != "cook_time"@ && "author"@ != "total_time"@ && "author"@ != "yield_amount"@ && "author"@ != "article"@ && "author"@ != "ingredients"@ && "author"@ != "steps"@);
    assert("author"@ != "image"@ && "author"@ != "tags"@ && "author"@ != "nutrition"@ && "prep_time"@ != "cook_time"@ && "prep_time"@ != "total_time"@ && "prep_time"@ != "yield_amount"@ && "prep_time"@ != "article"@ && "prep_time"@ != "ingredients"@ && "prep_time"@ != "steps"@ && "prep_time"@ != "image"@);
    assert("prep_time"@ != "tags"@ && "prep_time"@ != "nutrition"@ && "cook_time"@ != "total_time"@ && "cook_time"@ != "yield_amount"@ && "cook_time"@ != "article"@ && "cook_time"@ != "ingredients"@ && "cook_time"@ != "steps"@ && "cook_time"@ != "image"@ && "cook_time"@ != "tags"@ && "cook_time"@ != "nutrition"@);
    assert("total_time"@ != "yield_amount"@ && "total_time"@ != "article"@ && "total_time"@ != "ingredients"@ && "total_time"@ != "steps"@ && "total_time"@ != "image"@ && "total_time"@ != "tags"@ && "total_time"@ != "nutrition"@ && "yield_amount"@ != "article"@ && "yield_amount"@ != "ingredients"@ && "yield_amount"@ != "steps"@);
    assert("yield_amount"@ != "image"@ && "yield_amount"@ != "tags"@ && "yield_amount"@ != "nutrition"@ && "article"@ != "ingredients"@ && "article"@ != "steps"@ && "article"@ != "image"@ && "article"@ != "tags"@ && "article"@ != "nutrition"@ && "ingredients"@ != "steps"@ && "ingredients"@ != "image"@);
    assert("ingredients"@ != "tags"@ && "ingredients"@ != "nutrition"@ && "steps"@ != "image"@ && "steps"@ != "tags"@ && "steps"@ != "nutrition"@ && "image"@ != "tags"@ && "image"@ != "nutrition"@ && "tags"@ != "nutrition"@);
    assert(ms[0].1 == Jv::Str(r.title) && ms[1].1 == opt_str_jv(r.description) && ms[2].1
        == opt_str_jv(r.author) && ms[3].1 == opt_str_jv(r.prep_time) && ms[4].1 == opt_str_jv(
        r.cook_time,
    ) && ms[5].1 == opt_str_jv(r.total_time) && ms[6].1 == opt_str_jv(r.yield_amount) && ms[7].1
        == opt_str_jv(r.article) && ms[8].1 == Jv::Arr(strs_jv(r.ingredients)) && ms[9].1
        == Jv::Arr(steps_jv(r.steps)) && ms[10].1 == opt_str_jv(r.image) && ms[11].1
        == opt_strs_jv(r.tags) && ms[12].1 == json_of_nutrition(r.nutrition));
    assert(crate::json::wf_jv(json_of_nutrition(r.nutrition)));
    assert(crate::json::wf_jv(opt_strs_jv(r.tags)));
    assert(crate::json::wf_jv(Jv::Arr(strs_jv(r.ingredients))));
    assert(crate::json::wf_jv(Jv::Arr(steps_jv(r.steps))));
    assert(crate::json::wf_members(ms, 13));
    assert(crate::json::wf_members(ms, 12));
    assert(crate::json::wf_members(ms, 11));
    assert(crate::json::wf_members(ms, 10));
    assert(crate::json::wf_members(ms, 9));
    assert(crate::json::wf_members(ms, 8));
    assert(crate::json::wf_members(ms, 7));
    assert(crate::json::wf_members(ms, 6));
    assert(crate::json::wf_members(ms, 5));
    assert(crate::json::wf_members(ms, 4));
    assert(crate::json::wf_members(ms, 3));
    assert(crate::json::wf_members(ms, 2));
    assert(crate::json::wf_members(ms, 1));
    assert(crate::json::wf_members(ms, 0));
    assert(lookup(ms, "title"@) == Some(Jv::Str(r.title)));
    assert(lookup(ms, "description"@) == Some(opt_str_jv(r.description)));
    assert(lookup(ms, "author"@) == Some(opt_str_jv(r.author)));
    assert(lookup(ms, "prep_time"@) == Some(opt_str_jv(r.prep_time)));
    assert(lookup(ms, "cook_time"@) == Some(opt_str_jv(r.cook_time)));
    assert(lookup(ms, "total_time"@) == Some(opt_str_jv(r.total_time)));
    assert(lookup(ms, "yield_amount"@) == Some(opt_str_jv(r.yield_amount)));
    assert(lookup(ms, "article"@) == Some(opt_str_jv(r.article)));
    assert(lookup(ms, "ingredients"@) == Some(Jv::Arr(strs_jv(r.ingredients))));
    assert(lookup(ms, "steps"@) == Some(Jv::Arr(steps_jv(r.steps))));
    assert(lookup(ms, "image"@) == Some(opt_str_jv(r.image)));
    assert(lookup(ms, "tags"@) == Some(opt_strs_jv(r.tags)));
    assert(lookup(ms, "nutrition"@) == Some(json_of_nutrition(r.nutrition)));
    assert(r.ingredients.skip(0) =~= r.ingredients);
    assert(r.steps.skip(0) =~= r.steps);
    match r.tags {
        Option::None => {
        },
        Option::Some(ts) => {
            assert(ts.skip(0) =~= ts);
        },
    }
    assert(req_str(ms, "title"@) == Some(r.title));
    assert(req_strs(ms, "ingredients"@) == Some(r.ingredients));
    assert(req_steps(ms) == Some(r.steps));
    assert(opt_str(ms, "description"@) == Some(r.description));
    assert(opt_str(ms, "author"@) == Some(r.author));
    assert(opt_str(ms, "prep_time"@) == Some(r.prep_time));
    assert(opt_str(ms, "cook_time"@) == Some(r.cook_time));
    assert(opt_str(ms, "total_time"@) == Some(r.total_time));
    assert(opt_str(ms, "yield_amount"@) == Some(r.yield_amount));
    assert(opt_str(ms, "article"@) == Some(r.article));
    assert(opt_str(ms, "image"@) == Some(r.image));
    assert(opt_strs(ms, "tags"@) == Some(r.tags));
    assert(opt_nutrition(ms) == Some(r.nutrition));
    assert(r == (RecipeV {
        title: r.title,
        description: r.description,
        author: r.author,
        prep_time: r.prep_time,
        cook_time: r.cook_time,
        total_time: r.total_time,
        yield_amount: r.yield_amount,
        article: r.article,
        ingredients: r.ingredients,
        steps: r.steps,
        image: r.image,
        tags: r.tags,
        nutrition: r.nutrition,
    }));
}

/// The full round trip: a recipe serialized to JSON text and parsed back is
/// recovered field for field.
pub proof fn lemma_recipe_text_round_trip(r: RecipeV)
    ensures
        crate::json::parse_text(crate::json::ser(json_of_recipe(r))) == Some(json_of_recipe(r)),
        recipe_of_json(json_of_recipe(r)) == Some(r),
{
    lemma_recipe_json_round_trip(r);
    crate::json::lemma_text_round_trip(json_of_recipe(r));
}

/// A parsed recipe's title is always the document's own `title` member,
/// taken verbatim: a missing or mistyped member is an error, never an
/// invented or defaulted title. In particular, the title of a parsed recipe
/// is empty only when the document's `title` member was the empty string.
pub proof fn lemma_title_never_defaulted(j: Jv)
    ensures
        recipe_of_json(j) matches Some(rv) ==> (j matches Jv::Obj(ms) && lookup(ms, "title"@)
            == Some(Jv::Str(rv.title))),
{
}

} // verus!
