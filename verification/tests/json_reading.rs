use newbound_agent::archivist::wonder_answers;
use newbound_agent::inspect::persona_rows;
use newbound_agent::toolloop::memory_count;

fn s(x: &str) -> String {
    x.to_string()
}

// ndata's parser works in its shared heap, which a process sets up once:
// every reading of JSON text is checked in this one test.
#[test]
fn json_text_is_read_through_ndata() {
    let _config = ndata::init();

    let text = "{\"user\":\"hi\",\"assistant\":\"yo\"}\n\n  not json  \n{\"messages\":[]}\n{\"user\":\"only\"}\n[1]\n";
    assert_eq!(persona_rows(text), (vec![0, 3], 3));
    assert_eq!(persona_rows(""), (vec![], 0));
    assert_eq!(persona_rows("  {\"messages\":1}  \r\n"), (vec![0], 0));

    assert_eq!(wonder_answers("Here: [\"why a?\", 3, \" b \"] done"), Some(vec![Some(s("why a?")), None, Some(s(" b "))]));
    assert_eq!(wonder_answers("no list"), None);
    assert_eq!(wonder_answers("[not json]"), None);

    assert_eq!(memory_count("[{\"claim\":\"a\"},{\"claim\":\"b\"}]"), 2);
    assert_eq!(memory_count("[]"), 0);
    assert_eq!(memory_count("{\"a\":1}"), -1);
    assert_eq!(memory_count("oops"), -1);
}
