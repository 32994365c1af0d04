use engine::lua_params::{parse_lua_script_source, LuaAssignment, LuaValue};

fn pairs(v: Vec<LuaAssignment>) -> Vec<(String, String)> {
    v.into_iter()
        .map(|a| {
            let value = match a.value {
                LuaValue::Text(t) => format!("text:{}", t),
                LuaValue::Bool(b) => format!("bool:{}", b),
                LuaValue::Nil => "nil".to_string(),
                LuaValue::Number { text, has_dot } => format!("num:{}:{}", text, has_dot),
            };
            (a.name, value)
        })
        .collect()
}

#[test]
fn declarations_of_each_kind() {
    let src = "local speed = 10\njumpForce = 5.0\nname = \"Player\"\nlocal alive = true\nlocal target = nil,\n";
    assert_eq!(
        pairs(parse_lua_script_source(src)),
        vec![
            ("speed".to_string(), "num:10:false".to_string()),
            ("jumpForce".to_string(), "num:5.0:true".to_string()),
            ("name".to_string(), "text:Player".to_string()),
            ("alive".to_string(), "bool:true".to_string()),
            ("target".to_string(), "nil".to_string()),
        ]
    );
}

#[test]
fn comments_and_other_lines_skipped() {
    let src = "-- speed = 3\nfunction update(dt)\n  local a b = 3\n  = 4\nif x == 1 then\nx == 1\n";
    let got = pairs(parse_lua_script_source(src));
    assert_eq!(got, vec![("x".to_string(), "num:= 1:false".to_string())]);
}

#[test]
fn quoted_values_trimmed() {
    let src = "greeting = 'hi',\nlabel = \"a,b\",\n";
    assert_eq!(
        pairs(parse_lua_script_source(src)),
        vec![("greeting".to_string(), "text:hi'".to_string()), ("label".to_string(), "text:a,b\"".to_string())]
    );
}

#[test]
fn windows_line_endings() {
    let src = "speed = 2\r\nflag = false\r\n";
    assert_eq!(
        pairs(parse_lua_script_source(src)),
        vec![("speed".to_string(), "num:2:false".to_string()), ("flag".to_string(), "bool:false".to_string())]
    );
}

#[test]
fn empty_script() {
    assert!(parse_lua_script_source("").is_empty());
}
