use liquid_front::tokenizer::{Pattern, Tokenizer};

fn assert_tokens(tokenizer: &Tokenizer, expected: Vec<&str>) {
    let re = Pattern::Template.to_regex().unwrap();
    let actual = tokenizer.tokenize(&re);

    assert_eq!(expected, actual);
}

#[test]
fn tokenize_blank_string() {
    let tokenizer = Tokenizer::new("");
    assert_tokens(&tokenizer, vec![""]);
}

#[test]
fn tokenize_whitespace_only_string() {
    let tokenizer = Tokenizer::new("  ");
    assert_tokens(&tokenizer, vec!["  "]);
}

#[test]
fn tokenize_string_with_no_matches() {
    let tokenizer = Tokenizer::new("hello world");
    assert_tokens(&tokenizer, vec!["hello world"]);
}

#[test]
fn tokenize_single_variable() {
    let tokenizer = Tokenizer::new("{{funk}}");
    assert_tokens(&tokenizer, vec!["{{funk}}"]);
}

#[test]
fn tokenize_single_variable_surrounded_by_whitespace() {
    let tokenizer = Tokenizer::new(" {{funk}} ");
    assert_tokens(&tokenizer, vec![" ", "{{funk}}", " "]);
}

#[test]
fn tokenize_multiple_variables() {
    let tokenizer = Tokenizer::new(" {{funk}} {{so}} {{brutha}} ");
    let expected = vec![" ", "{{funk}}", " ", "{{so}}", " ", "{{brutha}}", " "];

    assert_tokens(&tokenizer, expected);
}

#[test]
fn tokenize_single_block() {
    let tokenizer = Tokenizer::new(" {%comment%} ");
    assert_tokens(&tokenizer, vec![" ", "{%comment%}", " "]);
}

#[test]
fn tokenize_empty_block_tag() {
    let tokenizer = Tokenizer::new(" {% thing %} {% comment %} My comment here {% endcomment %} ");

    assert_tokens(
        &tokenizer,
        vec![
            " ",
            "{% thing %}",
            " ",
            "{% comment %}",
            " My comment here ",
            "{% endcomment %}",
            " ",
        ],
    );
}

#[test]
fn tokenize_multiline_string() {
    let tokenizer = Tokenizer::new("{%comment%}\nMy Comment\n{%endcomment%}\n");

    assert_tokens(
        &tokenizer,
        vec!["{%comment%}", "\nMy Comment\n", "{%endcomment%}", "\n"],
    );
}

#[test]
fn tokenize_html_with_liquid() {
    let content = r#"
<html>
  <head>
    <title>{{ title }}</title>
  </head>
  <body class="some-class">
    <p>{% comment %}Content here{% endcomment %}</p>
    <script type="text/javascript">
      var {{ name }} = function() {
        alert("{{ js_value }}");
      };
    </script>
  </body>
</html>
        "#;

    let tokenizer = Tokenizer::new(&content);
    assert_tokens(
        &tokenizer,
        vec![
            "\n<html>\n  <head>\n    <title>",
            "{{ title }}",
            "</title>\n  </head>\n  <body class=\"some-class\">\n    <p>",
            "{% comment %}",
            "Content here",
            "{% endcomment %}",
            "</p>\n    <script type=\"text/javascript\">\n      var ",
            "{{ name }}",
            " = function() {\n        alert(\"",
            "{{ js_value }}",
            "\");\n      };\n    </script>\n  </body>\n</html>\n        ",
        ],
    );
}

#[test]
fn tokenize_round_trip_reassembles_the_source() {
    let source = "a {{x}} b {% if c %} d {{";
    let tokenizer = Tokenizer::new(source);
    let re = Pattern::Template.to_regex().unwrap();
    let slices = tokenizer.tokenize(&re);
    let mut rebuilt = String::new();
    for slice in &slices {
        rebuilt.push_str(slice);
    }
    assert_eq!(source, rebuilt);
}

#[test]
fn matched_slices_are_contiguous_and_ordered() {
    let source = " {{funk}} {%so%} tail";
    let tokenizer = Tokenizer::new(source);
    let re = Pattern::Template.to_regex().unwrap();
    let slices = tokenizer.matched_slices(&re);
    assert_eq!(0, slices[0].0);
    assert_eq!(source.chars().count(), slices[slices.len() - 1].1);
    for window in slices.windows(2) {
        assert_eq!(window[0].1, window[1].0);
    }
    for slice in &slices {
        assert!(slice.0 <= slice.1);
    }
}

#[test]
fn find_missing_slices_fills_the_gaps() {
    let tokenizer = Tokenizer::new("ab{{x}}cd");
    let matches: Vec<(usize, usize)> = vec![(2, 7)];
    let missing = tokenizer.find_missing_slices(&matches);
    assert_eq!(vec![(0, 2), (7, 9)], missing);
}

#[test]
fn find_missing_slices_of_no_matches_is_the_whole_source() {
    let tokenizer = Tokenizer::new("abcd");
    let matches: Vec<(usize, usize)> = Vec::new();
    let missing = tokenizer.find_missing_slices(&matches);
    assert_eq!(vec![(0, 4)], missing);
}

#[test]
fn missing_middle_slices_reports_gaps_between_matches() {
    let tokenizer = Tokenizer::new("0123456789");
    let matches: Vec<(usize, usize)> = vec![(0, 2), (4, 6), (6, 8)];
    let middles = tokenizer.missing_middle_slices(&matches);
    assert_eq!(vec![(2, 4)], middles);
}

#[test]
fn missing_first_and_last_slices() {
    let tokenizer = Tokenizer::new("0123456789");
    let matches: Vec<(usize, usize)> = vec![(2, 4), (5, 7)];
    assert_eq!(Some((0, 2)), tokenizer.missing_first_slice(&matches));
    assert_eq!(Some((7, 10)), tokenizer.missing_last_slice(&matches));
    let flush: Vec<(usize, usize)> = vec![(0, 10)];
    assert_eq!(None, tokenizer.missing_first_slice(&flush));
    assert_eq!(None, tokenizer.missing_last_slice(&flush));
}

#[test]
fn tokenize_keeps_an_unterminated_opener() {
    let tokenizer = Tokenizer::new("text {{name");
    assert_tokens(&tokenizer, vec!["text ", "{{", "name"]);
}
