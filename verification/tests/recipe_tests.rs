use strange_sandwich::recipe::{NutritionInfo, ParseError, Recipe, RecipeStep};

fn full_recipe() -> Recipe {
    Recipe {
        title: "Banana Parsley Surprise".to_owned(),
        description: Some("A strange sandwich.".to_owned()),
        author: Some("A. Chef".to_owned()),
        prep_time: Some("PT30M".to_owned()),
        cook_time: Some("PT10M".to_owned()),
        total_time: Some("PT40M".to_owned()),
        yield_amount: Some("4 servings".to_owned()),
        article: Some("Once upon a time\u{2026}".to_owned()),
        ingredients: vec!["banana".to_owned(), "parsley".to_owned()],
        steps: vec![
            RecipeStep {
                description: "Slice the banana.".to_owned(),
                image: Some("https://example.test/banana.png".to_owned()),
                duration: Some("PT5M".to_owned()),
            },
            RecipeStep {
                description: "Add parsley.".to_owned(),
                image: None,
                duration: None,
            },
        ],
        image: Some("https://example.test/sandwich.png".to_owned()),
        tags: Some(vec!["strange".to_owned(), "fruit".to_owned()]),
        nutrition: Some(NutritionInfo {
            calories: Some("650 kcal".to_owned()),
            fat_content: None,
            carbohydrate_content: Some("80 g".to_owned()),
            protein_content: None,
            fiber_content: Some("6 g".to_owned()),
            sugar_content: None,
        }),
    }
}

#[test]
fn round_trip_full_recipe() {
    let r = full_recipe();
    let text = r.to_json_text();
    let back = Recipe::parse(&text).expect("own output should parse");
    assert_eq!(back, r);
}

#[test]
fn round_trip_minimal_recipe() {
    let r = Recipe {
        ingredients: vec![],
        steps: vec![],
        ..Recipe::default()
    };
    let text = r.to_json_text();
    let back = Recipe::parse(&text).expect("own output should parse");
    assert_eq!(back, r);
}

#[test]
fn round_trip_with_escapes_in_fields() {
    let r = Recipe {
        title: "A \"quoted\"\ntitle\twith\\escapes".to_owned(),
        ingredients: vec!["s\u{00fc}\u{00df}es Brot".to_owned()],
        steps: vec![],
        ..Recipe::default()
    };
    let text = r.to_json_text();
    let back = Recipe::parse(&text).expect("own output should parse");
    assert_eq!(back, r);
}

#[test]
fn parse_banana_parsley_stub() {
    let text = "{\"title\":\"Banana Parsley Surprise\",\"ingredients\":[\"banana\",\"parsley\"],\"steps\":[]}";
    let r = Recipe::parse(text).expect("stub reply should parse");
    assert_eq!(r.title, "Banana Parsley Surprise");
    assert_eq!(r.ingredients.len(), 2);
    assert_eq!(r.ingredients[0], "banana");
    assert_eq!(r.ingredients[1], "parsley");
    assert!(r.steps.is_empty());
    assert!(r.description.is_none());
}

#[test]
fn missing_title_is_shape_error() {
    let text = "{\"ingredients\":[],\"steps\":[]}";
    assert_eq!(Recipe::parse(text), Err(ParseError::InvalidShape));
}

#[test]
fn missing_required_arrays_is_shape_error() {
    assert_eq!(
        Recipe::parse("{\"title\":\"x\",\"steps\":[]}"),
        Err(ParseError::InvalidShape)
    );
    assert_eq!(
        Recipe::parse("{\"title\":\"x\",\"ingredients\":[]}"),
        Err(ParseError::InvalidShape)
    );
}

#[test]
fn wrong_field_type_is_shape_error_not_default() {
    assert_eq!(
        Recipe::parse("{\"title\":5,\"ingredients\":[],\"steps\":[]}"),
        Err(ParseError::InvalidShape)
    );
    assert_eq!(
        Recipe::parse("{\"title\":\"x\",\"ingredients\":[1],\"steps\":[]}"),
        Err(ParseError::InvalidShape)
    );
    assert_eq!(
        Recipe::parse("{\"title\":\"x\",\"ingredients\":[],\"steps\":[],\"description\":7}"),
        Err(ParseError::InvalidShape)
    );
}

#[test]
fn malformed_json_is_parse_error_not_shape() {
    assert_eq!(Recipe::parse("not json"), Err(ParseError::InvalidJson));
    assert_eq!(
        Recipe::parse("{\"title\":\"x\",\"ingredients\":["),
        Err(ParseError::InvalidJson)
    );
}

#[test]
fn null_and_missing_optionals_are_absent() {
    let text = "{\"title\":\"x\",\"description\":null,\"ingredients\":[],\"steps\":[],\"tags\":null}";
    let r = Recipe::parse(text).expect("should parse");
    assert!(r.description.is_none());
    assert!(r.tags.is_none());
    assert!(r.nutrition.is_none());
}

#[test]
fn unknown_members_are_ignored() {
    let text = "{\"title\":\"x\",\"ingredients\":[],\"steps\":[],\"surprise\":42}";
    let r = Recipe::parse(text).expect("should parse");
    assert_eq!(r.title, "x");
}

#[test]
fn steps_are_parsed_in_order() {
    let text = "{\"title\":\"x\",\"ingredients\":[],\"steps\":[{\"description\":\"one\"},{\"description\":\"two\",\"duration\":\"PT1M\"}]}";
    let r = Recipe::parse(text).expect("should parse");
    assert_eq!(r.steps.len(), 2);
    assert_eq!(r.steps[0].description, "one");
    assert!(r.steps[0].duration.is_none());
    assert_eq!(r.steps[1].description, "two");
    assert_eq!(r.steps[1].duration.as_deref(), Some("PT1M"));
}

#[test]
fn step_without_description_is_shape_error() {
    let text = "{\"title\":\"x\",\"ingredients\":[],\"steps\":[{\"duration\":\"PT1M\"}]}";
    assert_eq!(Recipe::parse(text), Err(ParseError::InvalidShape));
}

#[test]
fn empty_title_is_tolerated_verbatim() {
    let text = "{\"title\":\"\",\"ingredients\":[],\"steps\":[]}";
    let r = Recipe::parse(text).expect("should parse");
    assert_eq!(r.title, "");
}

#[test]
fn serialized_recipe_is_valid_for_serde_json() {
    let r = full_recipe();
    let v: serde_json::Value =
        serde_json::from_str(&r.to_json_text()).expect("serde_json should accept it");
    assert_eq!(
        v["title"],
        serde_json::Value::String("Banana Parsley Surprise".to_owned())
    );
    assert_eq!(v["ingredients"].as_array().map(|a| a.len()), Some(2));
    assert!(v["author"].is_string());
    assert!(v["steps"][1]["image"].is_null());
}

#[test]
fn default_recipe_is_empty() {
    let r = Recipe::default();
    assert_eq!(r.title, "");
    assert!(r.ingredients.is_empty());
    assert!(r.steps.is_empty());
    assert!(r.nutrition.is_none());
}
