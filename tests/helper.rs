use yew_template::helper::Helper;

#[test]
fn test_helper() {
    let helper = Helper::parse("[0].to_string()").unwrap().1;
    let code = helper.to_code(vec![String::from("15")]);
    assert_eq!(code, "15.to_string()");

    let helper = Helper::parse("[0] + [1] - [2] + [1]").unwrap().1;
    let code = helper.to_code(vec![String::from("15"), String::from("10"), String::from("5")]);
    assert_eq!(code, "15 + 10 - 5 + 10");
}
