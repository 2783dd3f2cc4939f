use limusic::requests::{kugou_search_url, qq_search_url, simpmusic_url, url_with};

#[test]
fn provider_addresses_carry_the_query_percent_encoded() {
    assert_eq!(simpmusic_url("dQw4w9WgXcQ"), "https://api-lyrics.simpmusic.org/v1/dQw4w9WgXcQ");
    assert_eq!(simpmusic_url("a/b"), "https://api-lyrics.simpmusic.org/v1/a%2Fb");
    assert_eq!(
        qq_search_url("Hello", "Adele"),
        "https://c.y.qq.com/soso/fcgi-bin/client_search_cp?w=Hello%20Adele&format=json"
    );
    assert_eq!(
        kugou_search_url("Xin chào", "Sơn Tùng"),
        "https://songsearch.kugou.com/song_search_v2?keyword=Xin%20ch%C3%A0o%20S%C6%A1n%20T%C3%B9ng&page=1&pagesize=5"
    );
    assert_eq!(url_with("a", "b", "c"), "abc");
}
