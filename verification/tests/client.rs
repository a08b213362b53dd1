use csswitch_gateway::client::Client;
use csswitch_gateway::config::deepseek_model_list;
use csswitch_gateway::profile::Mode;

fn client() -> Client {
    Client::new("atlas", "Atlas")
}

#[test]
fn what_belongs_to_the_client_is_called_after_it() {
    assert_eq!(client().official_label(), "官方 Atlas");
    assert_eq!(client().selector_prefix(), "atlas-csswitch-");
    assert_eq!(client().daemon_program(), "atlas-science");
    assert_eq!(client().daemon_data_dir(), ".atlas-science");
    assert_eq!(
        client().direct_hosts(),
        "127.0.0.1,localhost,::1,pubmed.mcp.atlas.com,hcls.mcp.atlas.com,conda.anaconda.org,repo.anaconda.com,pypi.org,files.pythonhosted.org"
    );
    assert!(client().synthesis_instruction().ends_with("Use the remaining Atlas Science tools only if they are genuinely needed."));
}

#[test]
fn the_native_channel_stands_in_for_two_models() {
    let models = deepseek_model_list(&client());
    assert_eq!(models.len(), 2);
    assert_eq!(models[0], ("atlas-opus-4-8".to_string(), "DeepSeek V4 Pro"));
    assert_eq!(models[1], ("atlas-haiku-4-5".to_string(), "DeepSeek V4 Flash"));
}

#[test]
fn every_mode_has_a_name_to_show() {
    assert_eq!(Mode::Official.display_name(&client()), "官方 Atlas");
    assert_eq!(Mode::Kimi.display_name(&client()), "Kimi");
    assert_eq!(Mode::Deepseek.display_name(&client()), "DeepSeek");
}
